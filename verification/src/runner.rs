//! What a PWA window loads before the page: the blocker, and in debug builds a
//! probe that logs which GL renderer WebKit uses.

use vstd::prelude::*;
use vstd::string::*;
use crate::blocker::{script, script_text};

verus! {

/// The initialization script of a window: the blocker script, followed by a newline
/// and `gl_probe` when `gl_probe` is not empty.
pub fn build_init_script(gl_probe: &str) -> (res: String)
    ensures
        res@ == (if gl_probe@.len() == 0 {
            script_text()
        } else {
            script_text() + seq!['\n'] + gl_probe@
        }),
{
    let mut s = script();
    if !gl_probe.is_empty() {
        s.append("\n");
        proof {
            reveal_strlit("\n");
        }
        s.append(gl_probe);
    }
    s
}

}
