//! Interactive screenshot selection and annotation.
//!
//! The library holds the session logic of a screen-capture tool: a draggable
//! selection rectangle with edge hit-testing, an ordered store of drawn
//! annotations (lines, outlined and filled rectangles), the rasterizer that
//! paints them, the compositor that rebuilds the displayed buffer on every
//! redraw, the exporter that crops the selection, and the byte codec for the
//! image record handed to the clipboard helper process.
//!
//! Window management, screen capture, input translation and the clipboard
//! write itself are collaborators outside the library; they exchange plain
//! values (buffers, coordinates, key events) with the session here.

pub mod image;
pub mod raster;
pub mod screenshot;

use vstd::prelude::*;
use vstd::string::StringExecFns;

verus! {

/// Formats a failed call and its chain of error sources as log lines: the
/// first line names the method and the error's own message, and every
/// further source becomes one indented cause line.
pub fn log_error(method_name: &str, messages: &Vec<String>) -> (r: Vec<String>)
    ensures
        r@.len() == messages@.len(),
        forall|j: int|
            0 <= j < r@.len() ==> r@[j]@ == (if j == 0 {
                method_name@ + "() failed: "@ + messages@[0]@
            } else {
                "  Caused by: "@ + messages@[j]@
            }),
{
    let mut r: Vec<String> = Vec::new();
    let mut i: usize = 0;
    while i < messages.len()
        invariant
            i <= messages.len(),
            r@.len() == i,
            forall|j: int|
                0 <= j < i ==> r@[j]@ == (if j == 0 {
                    method_name@ + "() failed: "@ + messages@[0]@
                } else {
                    "  Caused by: "@ + messages@[j]@
                }),
        decreases messages.len() - i,
    {
        let mut line = String::new();
        if i == 0 {
            line.append(method_name);
            line.append("() failed: ");
        } else {
            line.append("  Caused by: ");
        }
        line.append(messages[i].as_str());
        proof {
            if i == 0 {
                assert(line@ =~= method_name@ + "() failed: "@ + messages@[0]@);
            } else {
                assert(line@ =~= "  Caused by: "@ + messages@[i as int]@);
            }
        }
        r.push(line);
        i = i + 1;
    }
    r
}

} // verus!

