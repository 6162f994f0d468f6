//! The video player used when the user names none.
use vstd::prelude::*;

use crate::text::{chars_of, same_chars};

verus! {

/// The default player for an operating system and processor
/// architecture: `iina` on Apple Silicon macOS, `vlc` everywhere else.
pub open spec fn default_player(os: Seq<char>, arch: Seq<char>) -> Seq<char> {
    if os == "macos"@ && arch == "aarch64"@ {
        "iina"@
    } else {
        "vlc"@
    }
}

/// The default video player for the operating system `os` and the
/// architecture `arch` (as `std::env::consts` names them).
pub fn default_video_player(os: &str, arch: &str) -> (res: String)
    ensures
        res@ == default_player(os@, arch@),
        os@ == "macos"@ && arch@ == "aarch64"@ ==> res@ == seq!['i', 'i', 'n', 'a'],
        !(os@ == "macos"@ && arch@ == "aarch64"@) ==> res@ == seq!['v', 'l', 'c'],
{
    let os_chars = chars_of(os);
    let arch_chars = chars_of(arch);
    if same_chars(&os_chars, &chars_of("macos")) && same_chars(&arch_chars, &chars_of("aarch64")) {
        let res = String::from_str("iina");
        proof {
            reveal_strlit("iina");
        }
        res
    } else {
        let res = String::from_str("vlc");
        proof {
            reveal_strlit("vlc");
        }
        res
    }
}

/// Every platform but Apple Silicon macOS gets `vlc`; Apple Silicon macOS
/// gets `iina`.
pub proof fn lemma_default_player(os: Seq<char>, arch: Seq<char>)
    ensures
        !(os == "macos"@ && arch == "aarch64"@) ==> default_player(os, arch) == seq!['v', 'l', 'c'],
        os == "macos"@ && arch == "aarch64"@ ==> default_player(os, arch) == seq![
            'i',
            'i',
            'n',
            'a',
        ],
{
    reveal_strlit("vlc");
    reveal_strlit("iina");
}

} // verus!
