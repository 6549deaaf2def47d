//! Options that are fixed when a context is made.

use vstd::prelude::*;

verus! {

/// Which GPU to prefer where a system has several.
#[derive(Debug, Default, Clone, Copy, PartialEq, Eq)]
pub enum PowerPreference {
    #[default]
    DontCare,
    LowPower,
    HiPower,
}

/// Options for configuring the graphics context on initialization. Once set,
/// these options cannot be changed without recreating the graphics context.
#[derive(Debug, Default, Clone, Copy, PartialEq, Eq)]
pub struct GraphicsConfig {
    pub debug_mode: bool,
    pub power_preference: PowerPreference,
}

/// Options of the renderer.
#[derive(Debug, Clone, Copy, PartialEq, Eq)]
pub struct Config {
    /// The power preference for the renderer.
    ///
    /// This influences the GPU selection criteria in multi-gpu systems.
    pub power_preference: PowerPreference,
    /// Whether or not to enable debugging features; `None` enables them in
    /// debug builds.
    pub debug_mode: Option<bool>,
    /// The amount of GPU memory to allocate for data that is updated per draw.
    pub dynamic_upload_buffer_size: u64,
    /// The amount of memory to allocate for staging images for upload.
    pub staging_buffer_size: u64,
}

/// One mebibyte, in bytes.
pub const MIB: u64 = 1048576;

impl Default for Config {
    /// Low power, debugging as the build has it, one mebibyte of memory for
    /// data that changes per draw and four for staging images.
    fn default() -> (config: Self)
        ensures
            config == (Config {
                power_preference: PowerPreference::LowPower,
                debug_mode: None,
                dynamic_upload_buffer_size: MIB,
                staging_buffer_size: (4 * MIB) as u64,
            }),
    {
        Self {
            power_preference: PowerPreference::LowPower,
            debug_mode: None,
            dynamic_upload_buffer_size: MIB,
            staging_buffer_size: 4 * MIB,
        }
    }
}

/// Buffers of the GPU begin and end at multiples of this many bytes.
pub const DEFAULT_RESOURCE_PLACEMENT_ALIGNMENT: u64 = 65536;

impl Config {
    /// The sizes in bytes of the buffer for data that changes per draw and of
    /// the buffer for staging images: what the configuration asks for, each
    /// rounded up to the placement alignment of buffers.
    pub fn buffer_sizes(&self) -> (sizes: (u64, u64))
        requires
            self.dynamic_upload_buffer_size <= u64::MAX - DEFAULT_RESOURCE_PLACEMENT_ALIGNMENT,
            self.staging_buffer_size <= u64::MAX - DEFAULT_RESOURCE_PLACEMENT_ALIGNMENT,
        ensures
            sizes.0 == crate::memory::temp_allocator::spec_next_multiple_of(
                self.dynamic_upload_buffer_size as int,
                DEFAULT_RESOURCE_PLACEMENT_ALIGNMENT as int,
            ),
            sizes.1 == crate::memory::temp_allocator::spec_next_multiple_of(
                self.staging_buffer_size as int,
                DEFAULT_RESOURCE_PLACEMENT_ALIGNMENT as int,
            ),
    {
        proof {
            crate::memory::temp_allocator::lemma_next_multiple_of(
                self.dynamic_upload_buffer_size as int,
                DEFAULT_RESOURCE_PLACEMENT_ALIGNMENT as int,
            );
            crate::memory::temp_allocator::lemma_next_multiple_of(
                self.staging_buffer_size as int,
                DEFAULT_RESOURCE_PLACEMENT_ALIGNMENT as int,
            );
        }
        (
            crate::memory::temp_allocator::next_multiple_of(
                self.dynamic_upload_buffer_size,
                DEFAULT_RESOURCE_PLACEMENT_ALIGNMENT,
            ),
            crate::memory::temp_allocator::next_multiple_of(
                self.staging_buffer_size,
                DEFAULT_RESOURCE_PLACEMENT_ALIGNMENT,
            ),
        )
    }

    /// The options of the graphics context that this configuration asks for.
    /// Where `debug_mode` is left open, `debug_build` decides.
    pub fn graphics(&self, debug_build: bool) -> (graphics: GraphicsConfig)
        ensures
            graphics.power_preference == self.power_preference,
            graphics.debug_mode == match self.debug_mode {
                Some(wanted) => wanted,
                None => debug_build,
            },
    {
        GraphicsConfig {
            debug_mode: match self.debug_mode {
                Some(wanted) => wanted,
                None => debug_build,
            },
            power_preference: self.power_preference,
        }
    }
}

} // verus!
