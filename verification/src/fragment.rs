//! The interface of the fragment stage: the sampler and the texture that it
//! multiplies the instance's tint with.

use vstd::prelude::*;

verus! {

/// The descriptor set of sampler and texture.
pub const TEXTURE_SET: u32 = 1;

/// The binding of the sampler in its set.
pub const SAMPLER_BINDING: u32 = 0;

/// The binding of the texture in its set.
pub const TEXTURE_BINDING: u32 = 1;

} // verus!
