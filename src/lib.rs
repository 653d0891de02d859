//! Iterate over the dot-separated extensions of a path, outermost first.
//!
//! A path is handled as its raw bytes, as on Unix. The final component, its
//! extension and what is left once the extension is removed follow the rules
//! of `std::path::Path::extension` and `std::path::PathBuf::set_extension`;
//! those rules are stated as spec functions in [`model`].
use vstd::prelude::*;
use vstd::utf8::encode_utf8;

pub mod laws;
pub mod model;
mod scan;
pub mod text;
pub mod util;

pub use util::{extensions_lossy, Extensions};

verus! {

/// The iterator that [`PathExt::extensions_lossy`] hands out.
pub type ExtensionsLossy = Extensions;

/// Gives path-like values an iterator over their extensions.
pub trait PathExt {
    /// The bytes of the path.
    spec fn path_bytes(&self) -> Seq<u8>;

    /// An iterator over the extensions of the path, outermost first.
    fn extensions_lossy(&self) -> (r: ExtensionsLossy)
        ensures
            r@ == self.path_bytes(),
    ;
}

impl PathExt for str {
    open spec fn path_bytes(&self) -> Seq<u8> {
        encode_utf8(self@)
    }

    fn extensions_lossy(&self) -> (r: ExtensionsLossy) {
        Extensions::new(self)
    }
}

} // verus!
