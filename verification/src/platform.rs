//! The platform abstraction: naming the final binary, enumerating plausible
//! archive entry paths, and adjusting direct download URLs.  Filesystem
//! concerns (home directories, permission bits) stay with the caller.
use vstd::prelude::*;

use crate::text;

verus! {

/// The adjustment Windows applies to a direct download URL: append `.exe`
/// unless the URL already names an executable or an archive.
pub open spec fn windows_adjust_spec(url: Seq<char>) -> Seq<char> {
    if text::ends_with_spec(url, ".exe"@) || text::ends_with_spec(url, ".zip"@)
        || text::ends_with_spec(url, ".tar.gz"@) {
        url
    } else {
        url + ".exe"@
    }
}

/// The installed binary file name for a host operating system.
pub open spec fn platform_final_binary_spec(os: Seq<char>, base: Seq<char>) -> Seq<char> {
    if os == "windows"@ {
        if text::ends_with_spec(base, ".exe"@) {
            base
        } else {
            base + ".exe"@
        }
    } else {
        base
    }
}

/// The URL adjustment for a host operating system.
pub open spec fn platform_adjust_spec(os: Seq<char>, url: Seq<char>) -> Seq<char> {
    if os == "windows"@ {
        windows_adjust_spec(url)
    } else {
        url
    }
}

/// The ordered archive entry candidates for a host operating system: on
/// Windows the base name and its `.exe` form; elsewhere the base name, the
/// `os-arch/` and `os_arch/` directory forms, and `bin/`.
pub open spec fn platform_candidates_spec(os: Seq<char>, base: Seq<char>, arch: Seq<char>) -> Seq<
    Seq<char>,
> {
    if os == "windows"@ {
        if text::ends_with_spec(base, ".exe"@) {
            seq![base]
        } else {
            seq![base, base + ".exe"@]
        }
    } else {
        seq![
            base,
            os + "-"@ + arch + "/"@ + base,
            os + "_"@ + arch + "/"@ + base,
            "bin/"@ + base,
        ]
    }
}

/// The capability set a platform offers to the installer.
pub trait PlatformOps {
    /// The name of the installed binary file.
    spec fn final_binary_name_spec(&self, base: Seq<char>) -> Seq<char>;

    /// The ordered suffix patterns used to find the binary inside archives.
    spec fn candidate_entries_spec(&self, base: Seq<char>, os: Seq<char>, arch: Seq<char>) -> Seq<
        Seq<char>,
    >;

    /// The adjustment applied to a direct download URL.
    spec fn adjust_direct_url_spec(&self, url: Seq<char>) -> Seq<char>;

    fn final_binary_name(&self, base: &str) -> (r: String)
        ensures
            r@ == self.final_binary_name_spec(base@),
    ;

    fn candidate_archive_entry_names(&self, base: &str, os: &str, arch: &str) -> (r: Vec<String>)
        ensures
            r.deep_view() == self.candidate_entries_spec(base@, os@, arch@),
    ;

    fn adjust_direct_url(&self, url: &str) -> (r: String)
        ensures
            r@ == self.adjust_direct_url_spec(url@),
    ;
}

/// The Unix platform.
pub struct Unix;

/// The Windows platform.
pub struct Windows;

impl PlatformOps for Unix {
    open spec fn final_binary_name_spec(&self, base: Seq<char>) -> Seq<char> {
        base
    }

    open spec fn candidate_entries_spec(&self, base: Seq<char>, os: Seq<char>, arch: Seq<char>)
        -> Seq<Seq<char>> {
        seq![
            base,
            os + "-"@ + arch + "/"@ + base,
            os + "_"@ + arch + "/"@ + base,
            "bin/"@ + base,
        ]
    }

    open spec fn adjust_direct_url_spec(&self, url: Seq<char>) -> Seq<char> {
        url
    }

    fn final_binary_name(&self, base: &str) -> (r: String) {
        base.to_owned()
    }

    fn candidate_archive_entry_names(&self, base: &str, os: &str, arch: &str) -> (r: Vec<String>) {
        let mut out: Vec<String> = Vec::new();
        out.push(base.to_owned());
        let mut dashed = os.to_owned();
        dashed.append("-");
        dashed.append(arch);
        dashed.append("/");
        dashed.append(base);
        out.push(dashed);
        let mut scored = os.to_owned();
        scored.append("_");
        scored.append(arch);
        scored.append("/");
        scored.append(base);
        out.push(scored);
        let mut binned = "bin/".to_owned();
        binned.append(base);
        out.push(binned);
        proof {
            assert(out.deep_view() =~~= self.candidate_entries_spec(base@, os@, arch@));
        }
        out
    }

    fn adjust_direct_url(&self, url: &str) -> (r: String) {
        url.to_owned()
    }
}

impl PlatformOps for Windows {
    open spec fn final_binary_name_spec(&self, base: Seq<char>) -> Seq<char> {
        if text::ends_with_spec(base, ".exe"@) {
            base
        } else {
            base + ".exe"@
        }
    }

    open spec fn candidate_entries_spec(&self, base: Seq<char>, os: Seq<char>, arch: Seq<char>)
        -> Seq<Seq<char>> {
        if text::ends_with_spec(base, ".exe"@) {
            seq![base]
        } else {
            seq![base, base + ".exe"@]
        }
    }

    open spec fn adjust_direct_url_spec(&self, url: Seq<char>) -> Seq<char> {
        windows_adjust_spec(url)
    }

    fn final_binary_name(&self, base: &str) -> (r: String) {
        if text::ends_with(base, ".exe") {
            base.to_owned()
        } else {
            let mut out = base.to_owned();
            out.append(".exe");
            out
        }
    }

    fn candidate_archive_entry_names(&self, base: &str, os: &str, arch: &str) -> (r: Vec<String>) {
        let mut out: Vec<String> = Vec::new();
        out.push(base.to_owned());
        if !text::ends_with(base, ".exe") {
            let mut exed = base.to_owned();
            exed.append(".exe");
            out.push(exed);
        }
        proof {
            assert(out.deep_view() =~~= self.candidate_entries_spec(base@, os@, arch@));
        }
        out
    }

    fn adjust_direct_url(&self, url: &str) -> (r: String) {
        if text::ends_with(url, ".exe") || text::ends_with(url, ".zip") || text::ends_with(
            url,
            ".tar.gz",
        ) {
            url.to_owned()
        } else {
            let mut out = url.to_owned();
            out.append(".exe");
            out
        }
    }
}

/// A platform chosen at run time.
pub enum Platform {
    Unix(Unix),
    Windows(Windows),
}

impl Platform {
    /// The name of the installed binary file.
    pub open spec fn final_binary_name_spec(&self, base: Seq<char>) -> Seq<char> {
        match self {
            Platform::Unix(u) => u.final_binary_name_spec(base),
            Platform::Windows(w) => w.final_binary_name_spec(base),
        }
    }

    /// The ordered suffix patterns used to find the binary inside archives.
    pub open spec fn candidate_entries_spec(
        &self,
        base: Seq<char>,
        os: Seq<char>,
        arch: Seq<char>,
    ) -> Seq<Seq<char>> {
        match self {
            Platform::Unix(u) => u.candidate_entries_spec(base, os, arch),
            Platform::Windows(w) => w.candidate_entries_spec(base, os, arch),
        }
    }

    /// The adjustment applied to a direct download URL.
    pub open spec fn adjust_direct_url_spec(&self, url: Seq<char>) -> Seq<char> {
        match self {
            Platform::Unix(u) => u.adjust_direct_url_spec(url),
            Platform::Windows(w) => w.adjust_direct_url_spec(url),
        }
    }

    /// Name the installed binary file.
    pub fn final_binary_name(&self, base: &str) -> (r: String)
        ensures
            r@ == self.final_binary_name_spec(base@),
    {
        match self {
            Platform::Unix(u) => u.final_binary_name(base),
            Platform::Windows(w) => w.final_binary_name(base),
        }
    }

    /// Enumerate the suffix patterns used to find the binary inside archives.
    pub fn candidate_archive_entry_names(&self, base: &str, os: &str, arch: &str) -> (r: Vec<
        String,
    >)
        ensures
            r.deep_view() == self.candidate_entries_spec(base@, os@, arch@),
    {
        match self {
            Platform::Unix(u) => u.candidate_archive_entry_names(base, os, arch),
            Platform::Windows(w) => w.candidate_archive_entry_names(base, os, arch),
        }
    }

    /// Adjust a direct download URL.
    pub fn adjust_direct_url(&self, url: &str) -> (r: String)
        ensures
            r@ == self.adjust_direct_url_spec(url@),
    {
        match self {
            Platform::Unix(u) => u.adjust_direct_url(url),
            Platform::Windows(w) => w.adjust_direct_url(url),
        }
    }
}

/// The platform for a host operating system name.
pub fn platform(os: &str) -> (r: Platform)
    ensures
        os@ == "windows"@ ==> r is Windows,
        os@ != "windows"@ ==> r is Unix,
        forall|u: Seq<char>| #[trigger] r.adjust_direct_url_spec(u) == platform_adjust_spec(os@, u),
        forall|b: Seq<char>| #[trigger] r.final_binary_name_spec(b) == platform_final_binary_spec(
            os@,
            b,
        ),
        forall|b: Seq<char>, a: Seq<char>| #[trigger] r.candidate_entries_spec(b, os@, a)
            == platform_candidates_spec(os@, b, a),
{
    if text::str_eq(os, "windows") {
        Platform::Windows(Windows)
    } else {
        Platform::Unix(Unix)
    }
}

} // verus!

use vstd::string::StringExecFns;
