//! Keeping a drawing surface's backing size in step with its displayed size.
use vstd::prelude::*;

verus! {

/// The backing size a surface should take, given the size it is displayed at
/// (`client_width`, `client_height`, as the host reports them, read as
/// unsigned) and its current backing size. `None` when the two already agree,
/// so that nothing needs to be reallocated.
pub fn canvas_resize(client_width: i32, client_height: i32, width: u32, height: u32) -> (r: Option<(u32, u32)>)
    ensures
        r == (if client_width as u32 != width || client_height as u32 != height {
            Some((client_width as u32, client_height as u32))
        } else {
            None
        }),
{
    let pixel_width = client_width as u32;
    let pixel_height = client_height as u32;
    if pixel_width != width || pixel_height != height {
        Some((pixel_width, pixel_height))
    } else {
        None
    }
}

} // verus!
