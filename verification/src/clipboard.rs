//! The portable clipboard entry point.
//!
//! Real clipboard backends are platform services (a temp file handed to an
//! external tool, an OS pasteboard) and live outside the verified core; the
//! core itself ships only the portable fallback, which reports that no
//! backend is available, exactly as the platform-independent build does.

use crate::canvas::Canvas;
use crate::error::ClipboardError;
use vstd::prelude::*;

verus! {

/// Hand the finished image to the system clipboard.  Without a platform
/// backend this always reports the feature as unavailable; the image is
/// never touched.
pub fn dump_image_to_clipboard(_image: &Canvas) -> (r: Result<(), ClipboardError>)
    ensures
        r == Err::<(), ClipboardError>(ClipboardError::Unsupported),
{
    Err(ClipboardError::Unsupported)
}

} // verus!
