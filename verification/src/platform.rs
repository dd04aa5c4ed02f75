//! The systems that the app runs on, as far as its behaviour depends on them.
use vstd::prelude::*;

use crate::text::same_text;

verus! {

#[derive(Debug, Clone, Copy, PartialEq, Eq, Structural)]
pub enum Platform {
    MacOs,
    Windows,
    Ios,
    Android,
    Other,
}

impl Platform {
    /// The platform with an operating system's name.
    pub open spec fn named(os: Seq<char>) -> Platform {
        if os == "macos"@ {
            Platform::MacOs
        } else if os == "windows"@ {
            Platform::Windows
        } else if os == "ios"@ {
            Platform::Ios
        } else if os == "android"@ {
            Platform::Android
        } else {
            Platform::Other
        }
    }

    /// The platform with an operating system's name, as `std::env::consts::OS`
    /// gives it.
    pub fn of(os: &str) -> (r: Platform)
        ensures
            r == Platform::named(os@),
    {
        if same_text(os, "macos") {
            Platform::MacOs
        } else if same_text(os, "windows") {
            Platform::Windows
        } else if same_text(os, "ios") {
            Platform::Ios
        } else if same_text(os, "android") {
            Platform::Android
        } else {
            Platform::Other
        }
    }
}

/// Each system has its own platform, and every other system is some other one.
pub proof fn law_platforms_are_told_by_name(os: Seq<char>)
    ensures
        Platform::named(os) == Platform::MacOs <==> os == "macos"@,
        Platform::named(os) == Platform::Windows <==> os == "windows"@,
        Platform::named(os) == Platform::Ios <==> os == "ios"@,
        Platform::named(os) == Platform::Android <==> os == "android"@,
{
    reveal_strlit("macos");
    reveal_strlit("windows");
    reveal_strlit("ios");
    reveal_strlit("android");
    assert("macos"@.len() == 5 && "windows"@.len() == 7 && "ios"@.len() == 3 && "android"@.len()
        == 7);
    assert("windows"@[0] == 'w' && "android"@[0] == 'a');
}

} // verus!
