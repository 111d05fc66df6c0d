//! The installed sing-box core: where it lives, the version it reports, and
//! whether this client can drive it.

use vstd::prelude::*;
use vstd::string::*;

use crate::error::{AppError, ErrorView};
use crate::parser::vless::strip_leading;
use crate::subscription::first_line;
use crate::text::{
    chars_of, copy_range, ends_with, parse_unsigned, parse_unsigned_exec, push_str, seq_views,
    split_char, split_chars, split_words, starts_with, starts_with_str, string_of, trim,
    trim_chars, words,
};

verus! {

/// A path separator: `/`, or `\` (a separator on Windows).
pub open spec fn is_path_sep(c: char) -> bool {
    c == '/' || c == '\\'
}

/// A single plain path component: non-empty, not `.` or `..`, and free of
/// separators, `:` and `?` (so it can be neither absolute, a drive nor
/// the start of a prefix).
pub open spec fn plain_component(p: Seq<char>) -> bool {
    &&& p.len() > 0
    &&& p != seq!['.']
    &&& p != seq!['.', '.']
    &&& forall|i: int| 0 <= i < p.len() ==> !is_path_sep(#[trigger] p[i]) && p[i] != ':' && p[i] != '?'
}

/// Whether `base` may begin with a Windows verbatim prefix (`\\?\`), under
/// which a joined path is rebuilt from its components.
pub open spec fn may_be_verbatim(base: Seq<char>) -> bool {
    base.len() >= 3 && is_path_sep(base[0]) && is_path_sep(base[1]) && base[2] == '?'
}

/// `r` is `part` joined onto `base`: `part` alone under an empty base; else
/// `base`, a separator, then `part`, where no separator is added after a
/// trailing one. Which separator, and whether a trailing `\` counts as one,
/// depends on the platform, so both are allowed; so is no separator after
/// a bare drive such as `C:`.
pub open spec fn path_joined(base: Seq<char>, part: Seq<char>, r: Seq<char>) -> bool {
    if base.len() == 0 {
        r == part
    } else if base.last() == '/' {
        r == base + part
    } else if base.last() == '\\' {
        r == base + part || r == base + seq!['/'] + part
    } else if base.len() == 2 && base[1] == ':' {
        r == base + part || r == base + seq!['/'] + part || r == base + seq!['\\'] + part
    } else {
        r == base + seq!['/'] + part || r == base + seq!['\\'] + part
    }
}

/// Calls `Path::new(base).join(part)` and reads the result back as text.
/// For a plain component `part` the path is extended by it: the result
/// ends with `part`, and unless `base` may carry a Windows verbatim prefix
/// (under which std normalises the whole path) it is `base` joined with
/// `part` as `path_joined` says. What the verbatim case makes of `base` is
/// not stated.
#[verifier::external_body]
pub(crate) fn join_path(base: &str, part: &str) -> (r: String)
    requires
        plain_component(part@),
    ensures
        ends_with(r@, part@),
        !may_be_verbatim(base@) ==> path_joined(base@, part@, r@),
{
    std::path::Path::new(base).join(part).to_string_lossy().into_owned()
}

/// A joined path never looks like a verbatim prefix unless its base did.
pub proof fn lemma_joined_not_verbatim(base: Seq<char>, part: Seq<char>, r: Seq<char>)
    requires
        plain_component(part),
        !may_be_verbatim(base),
        path_joined(base, part, r),
    ensures
        !may_be_verbatim(r),
{
    if may_be_verbatim(r) {
        if base.len() >= 3 {
            assert(r[0] == base[0] && r[1] == base[1] && r[2] == base[2]);
        } else {
            // Among the first three characters of `r` lies one of `part`'s,
            // or a separator stands where `?` would have to.
            assert(!is_path_sep(part[0]) && part[0] != '?');
            if base.len() == 0 {
                assert(r[0] == part[0]);
            } else if base.last() == '/' {
                assert(r[base.len() as int] == part[0]);
            } else if base.last() == '\\' {
                assert(r[base.len() as int] == part[0] || r[base.len() as int] == '/');
            } else if base.len() == 2 && base[1] == ':' {
                assert(r[1] == ':');
            } else {
                assert(r[base.len() - 1] == base.last());
            }
        }
    }
}

/// `sing-box.exe`, `bin` and the data file names are plain components.
pub(crate) proof fn lemma_plain_names()
    ensures
        plain_component("bin"@),
        plain_component("sing-box.exe"@),
        plain_component("settings.json"@),
        plain_component("profiles.json"@),
{
    reveal_strlit("bin");
    reveal_strlit("sing-box.exe");
    reveal_strlit("settings.json");
    reveal_strlit("profiles.json");
    assert("bin"@ =~= seq!['b', 'i', 'n']);
    assert("sing-box.exe"@ =~= seq!['s', 'i', 'n', 'g', '-', 'b', 'o', 'x', '.', 'e', 'x', 'e']);
    assert("settings.json"@ =~= seq![
        's', 'e', 't', 't', 'i', 'n', 'g', 's', '.', 'j', 's', 'o', 'n',
    ]);
    assert("profiles.json"@ =~= seq![
        'p', 'r', 'o', 'f', 'i', 'l', 'e', 's', '.', 'j', 's', 'o', 'n',
    ]);
}

/// The core's path: `<data dir>/bin/sing-box.exe`, the data directory joined
/// with `bin` and then with `sing-box.exe`.
pub fn core_path(data_dir: &str) -> (r: String)
    ensures
        ends_with(r@, "sing-box.exe"@),
        !may_be_verbatim(data_dir@) ==> exists|bin: Seq<char>|
            path_joined(data_dir@, "bin"@, bin) && path_joined(bin, "sing-box.exe"@, r@),
{
    proof {
        lemma_plain_names();
    }
    let bin = join_path(data_dir, "bin");
    proof {
        if !may_be_verbatim(data_dir@) {
            lemma_joined_not_verbatim(data_dir@, "bin"@, bin@);
        }
    }
    join_path(bin.as_str(), "sing-box.exe")
}

/// The version named on the first line of `sing-box version` output
/// (`sing-box version 1.13.14`).
pub open spec fn version_line_spec(stdout: Seq<char>) -> Option<Seq<char>> {
    if stdout.len() == 0 {
        None
    } else {
        let f = trim(first_line(stdout));
        if starts_with(f, "sing-box version"@) {
            let ws = words(f.subrange(16, f.len() as int));
            if ws.len() > 0 && ws[0].len() > 0 {
                Some(ws[0])
            } else {
                None
            }
        } else {
            None
        }
    }
}

/// Reads the version from the output of `sing-box version`.
pub fn parse_version_line(stdout: &str) -> (r: Option<String>)
    ensures
        crate::url_text::opt_text(r) == version_line_spec(stdout@),
{
    let s = chars_of(stdout);
    if s.len() == 0 {
        return None;
    }
    let f = trim_chars(&crate::subscription::first_line_exec(&s));
    if !starts_with_str(&f, "sing-box version") {
        return None;
    }
    proof {
        reveal_strlit("sing-box version");
    }
    let ws = split_words(&copy_range(&f, 16, f.len()));
    if ws.len() > 0 && ws[0].len() > 0 {
        Some(string_of(&ws[0]))
    } else {
        None
    }
}

/// Whether a version is a 1.13 one: trimmed, leading `v`s dropped, its
/// first two dot-separated fields are the numbers 1 and 13.
pub open spec fn compatible_spec(version: Seq<char>) -> bool {
    let parts = split_char(strip_leading(trim(version), 'v'), '.');
    &&& parts.len() >= 2
    &&& parse_unsigned(parts[0], u64::MAX as nat) == Some(1nat)
    &&& parse_unsigned(parts[1], u64::MAX as nat) == Some(13nat)
}

/// Whether this client can drive a core of the given version (1.13.x).
pub fn is_version_compatible(version_str: &str) -> (r: bool)
    ensures
        r == compatible_spec(version_str@),
{
    let clean = crate::parser::vless::strip_leading_exec(&trim_chars(&chars_of(version_str)), 'v');
    let parts = split_chars(&clean, '.');
    proof {
        crate::text::lemma_split_char_len(clean@, '.');
    }
    if parts.len() < 2 {
        return false;
    }
    assert(seq_views(parts@)[0] == parts@[0]@);
    assert(seq_views(parts@)[1] == parts@[1]@);
    let major = parse_unsigned_exec(&parts[0], u64::MAX);
    let minor = parse_unsigned_exec(&parts[1], u64::MAX);
    match (major, minor) {
        (Some(a), Some(b)) => a == 1 && b == 13,
        _ => false,
    }
}

/// The check before a connect: the core must be installed (`installed`),
/// report a version (`version`, what probing it gave), and be a 1.13 one.
pub fn ensure_compatible_core(installed: bool, version: Option<String>) -> (r: Result<String, AppError>)
    ensures
        !installed ==> (r matches Err(e) && e@ == ErrorView::CoreNotInstalled),
        installed && version is None ==> (r matches Err(e) && e@ == ErrorView::CoreStartFailed(
            "failed to probe sing-box core version"@,
        )),
        installed ==> (version matches Some(v) ==> if compatible_spec(v@) {
            r matches Ok(x) && x@ == v@
        } else {
            r matches Err(e) && e@ == ErrorView::Unsupported(
                "installed sing-box version "@ + v@
                    + " is incompatible with Umbra (requires sing-box 1.13.x)"@,
            )
        }),
{
    if !installed {
        return Err(AppError::CoreNotInstalled);
    }
    let ver = match version {
        Some(v) => v,
        None => {
            return Err(AppError::CoreStartFailed(String::from_str("failed to probe sing-box core version")));
        },
    };
    if !is_version_compatible(ver.as_str()) {
        let mut msg = chars_of("installed sing-box version ");
        push_str(&mut msg, ver.as_str());
        push_str(&mut msg, " is incompatible with Umbra (requires sing-box 1.13.x)");
        return Err(AppError::Unsupported(string_of(&msg)));
    }
    Ok(ver)
}

/// Only 1.13 cores are compatible: a version whose second field (after
/// trimming and dropping leading `v`s, split at `.`) is a number other
/// than 13, or whose first field is a number other than 1, or that has
/// fewer than two fields, is refused; and every version whose first two
/// fields are 1 and 13 is accepted, whatever follows.
pub proof fn lemma_only_1_13_is_compatible(version: Seq<char>, major: nat, minor: nat)
    ensures
        ({
            let parts = split_char(strip_leading(trim(version), 'v'), '.');
            &&& parts.len() < 2 ==> !compatible_spec(version)
            &&& parts.len() >= 2 && parse_unsigned(parts[1], u64::MAX as nat) == Some(minor) && minor
                != 13 ==> !compatible_spec(version)
            &&& parts.len() >= 2 && parse_unsigned(parts[0], u64::MAX as nat) == Some(major) && major
                != 1 ==> !compatible_spec(version)
            &&& parts.len() >= 2 && parse_unsigned(parts[1], u64::MAX as nat) is None
                ==> !compatible_spec(version)
            &&& parts.len() >= 2 && parse_unsigned(parts[0], u64::MAX as nat) == Some(1nat)
                && parse_unsigned(parts[1], u64::MAX as nat) == Some(13nat) ==> compatible_spec(
                version,
            )
        }),
{
}

} // verus!
