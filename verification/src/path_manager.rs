//! Where files may be written, and what they may be called.

use crate::text::chars_of;
use crate::text::string_of;
use vstd::prelude::*;

verus! {

/// The directories the application works in. Paths are kept as text.
#[derive(Debug, Clone)]
pub struct PathConfig {
    pub app_data_dir: String,
    pub user_downloads_dir: Option<String>,
    pub allowed_base_dirs: Vec<String>,
}

/// What `std::path::Path::join` makes of `base` and `segment`.
pub uninterp spec fn path_join(base: Seq<char>, segment: Seq<char>) -> Seq<char>;

/// Whether `std::path::Path::starts_with` finds `base` to be a prefix of
/// `path`.
pub uninterp spec fn path_has_prefix(path: Seq<char>, base: Seq<char>) -> bool;

/// Adjoins `segment` to `base` with `std::path::Path::join`: the result
/// depends on the two texts alone (and uses the separator of the platform
/// the library is built for). Both are valid UTF-8, so the result is too and
/// comes back as it is.
#[verifier::external_body]
fn join_path(base: &str, segment: &str) -> (joined: String)
    ensures
        joined@ == path_join(base@, segment@),
{
    std::path::Path::new(base).join(segment).to_string_lossy().into_owned()
}

/// Asks `std::path::Path::starts_with` whether `base` is a prefix of `path`,
/// which compares whole components and depends on the two texts alone.
#[verifier::external_body]
fn has_prefix(path: &str, base: &str) -> (r: bool)
    ensures
        r == path_has_prefix(path@, base@),
{
    std::path::Path::new(path).starts_with(base)
}

/// Characters that separate path components or have a meaning to a shell or
/// a file system.
pub open spec fn is_reserved(c: char) -> bool {
    c == '/' || c == '\\' || c == ':' || c == '*' || c == '?' || c == '"' || c == '<' || c == '>'
        || c == '|'
}

/// The control characters: U+0000 to U+001F and U+007F to U+009F.
pub open spec fn is_control(c: char) -> bool {
    c as u32 <= 0x1f || 0x7f <= c as u32 <= 0x9f
}

/// The white space characters.
pub open spec fn is_space(c: char) -> bool {
    let n = c as u32;
    0x09 <= n <= 0x0d || n == 0x20 || n == 0x85 || n == 0xa0 || n == 0x1680 || 0x2000 <= n
        <= 0x200a || n == 0x2028 || n == 0x2029 || n == 0x202f || n == 0x205f || n == 0x3000
}

/// A character as it may stand in a file name: an underscore in place of a
/// reserved or control character.
pub open spec fn safe_char(c: char) -> char {
    if is_reserved(c) || is_control(c) {
        '_'
    } else {
        c
    }
}

/// Index of the first character at or after `from` that is not white space,
/// or the length.
pub open spec fn skip_spaces(s: Seq<char>, from: int) -> int
    decreases s.len() - from,
{
    if from < 0 || from >= s.len() {
        s.len() as int
    } else if is_space(s[from]) {
        skip_spaces(s, from + 1)
    } else {
        from
    }
}

/// Index after the last character before `upto` that is not white space,
/// or zero.
pub open spec fn drop_spaces(s: Seq<char>, upto: int) -> int
    decreases upto,
{
    if upto <= 0 || upto > s.len() {
        0
    } else if is_space(s[upto - 1]) {
        drop_spaces(s, upto - 1)
    } else {
        upto
    }
}

/// `s` without the white space at its start and at its end.
pub open spec fn trimmed(s: Seq<char>) -> Seq<char> {
    let from = skip_spaces(s, 0);
    let upto = drop_spaces(s, s.len() as int);
    if from < upto {
        s.subrange(from, upto)
    } else {
        Seq::empty()
    }
}

/// A file name made safe: every reserved or control character replaced by
/// an underscore, then the white space at both ends removed.
pub open spec fn sanitized(name: Seq<char>) -> Seq<char> {
    trimmed(name.map_values(|c: char| safe_char(c)))
}

fn char_is_space(c: char) -> (r: bool)
    ensures
        r == is_space(c),
{
    let n: u32 = c as u32;
    (0x09 <= n && n <= 0x0d) || n == 0x20 || n == 0x85 || n == 0xa0 || n == 0x1680 || (0x2000 <= n
        && n <= 0x200a) || n == 0x2028 || n == 0x2029 || n == 0x202f || n == 0x205f || n == 0x3000
}

fn make_safe(c: char) -> (r: char)
    ensures
        r == safe_char(c),
{
    let n: u32 = c as u32;
    if c == '/' || c == '\\' || c == ':' || c == '*' || c == '?' || c == '"' || c == '<' || c == '>'
        || c == '|' || n <= 0x1f || (0x7f <= n && n <= 0x9f) {
        '_'
    } else {
        c
    }
}

impl PathConfig {
    /// The directory in which sessions are stored: `sessions` below the
    /// application's data directory.
    pub fn get_default_storage_path(&self) -> (path: String)
        ensures
            path@ == path_join(self.app_data_dir@, "sessions"@),
    {
        join_path(self.app_data_dir.as_str(), "sessions")
    }

    /// Whether `path` lies in one of the allowed base directories. The path
    /// and the directories are compared as they are given; a caller that
    /// wants links and relative parts resolved resolves them first.
    pub fn is_path_allowed(&self, path: &str) -> (r: bool)
        ensures
            r == exists|i: int|
                0 <= i < self.allowed_base_dirs@.len() && path_has_prefix(
                    path@,
                    (#[trigger] self.allowed_base_dirs@[i])@,
                ),
    {
        let mut i: usize = 0;
        while i < self.allowed_base_dirs.len()
            invariant
                i <= self.allowed_base_dirs.len(),
                forall|j: int|
                    0 <= j < i ==> !path_has_prefix(path@, (#[trigger] self.allowed_base_dirs@[j])@),
            decreases self.allowed_base_dirs.len() - i,
        {
            if has_prefix(path, self.allowed_base_dirs[i].as_str()) {
                return true;
            }
            i += 1;
        }
        false
    }

    /// `filename` made safe for a file system: every reserved or control
    /// character replaced by an underscore, then the white space at both
    /// ends removed.
    pub fn sanitize_filename(filename: &str) -> (safe: String)
        ensures
            safe@ == sanitized(filename@),
    {
        let chars = chars_of(filename);
        let mut mapped: Vec<char> = Vec::new();
        let mut i: usize = 0;
        while i < chars.len()
            invariant
                i <= chars.len(),
                mapped@.len() == i,
                forall|j: int| 0 <= j < i ==> #[trigger] mapped@[j] == safe_char(chars@[j]),
            decreases chars.len() - i,
        {
            mapped.push(make_safe(chars[i]));
            i += 1;
        }
        assert(mapped@ =~= filename@.map_values(|c: char| safe_char(c)));
        let mut from: usize = 0;
        while from < mapped.len() && char_is_space(mapped[from])
            invariant
                from <= mapped.len(),
                skip_spaces(mapped@, 0) == skip_spaces(mapped@, from as int),
            decreases mapped.len() - from,
        {
            from += 1;
        }
        assert(skip_spaces(mapped@, from as int) == from);
        let mut upto: usize = mapped.len();
        while upto > 0 && char_is_space(mapped[upto - 1])
            invariant
                upto <= mapped.len(),
                drop_spaces(mapped@, mapped@.len() as int) == drop_spaces(mapped@, upto as int),
            decreases upto,
        {
            upto -= 1;
        }
        assert(drop_spaces(mapped@, upto as int) == upto);
        let mut kept: Vec<char> = Vec::new();
        let mut k: usize = from;
        while k < upto
            invariant
                from <= k,
                upto <= mapped.len(),
                skip_spaces(mapped@, 0) == from,
                drop_spaces(mapped@, mapped@.len() as int) == upto,
                from > upto ==> kept@.len() == 0,
                from <= upto ==> k <= upto && kept@ == mapped@.subrange(from as int, k as int),
            decreases upto - k,
        {
            kept.push(mapped[k]);
            assert(kept@ =~= mapped@.subrange(from as int, k + 1));
            k += 1;
        }
        assert(kept@ =~= trimmed(mapped@));
        string_of(&kept)
    }

    /// Where a download called `filename` goes: under its sanitized name
    /// into the user's download directory if there is one and the caller
    /// found it usable, else into `downloads` below the application's data
    /// directory.
    pub fn get_safe_download_path(&self, filename: &str, downloads_usable: bool) -> (path: Option<
        String,
    >)
        ensures
            path is Some,
            path->0@ == if self.user_downloads_dir is Some && downloads_usable {
                path_join(self.user_downloads_dir->0@, sanitized(filename@))
            } else {
                path_join(path_join(self.app_data_dir@, "downloads"@), sanitized(filename@))
            },
    {
        let safe_filename = PathConfig::sanitize_filename(filename);
        match &self.user_downloads_dir {
            Some(downloads) => {
                if downloads_usable {
                    return Some(join_path(downloads.as_str(), safe_filename.as_str()));
                }
            },
            None => {},
        }
        let fallback = join_path(self.app_data_dir.as_str(), "downloads");
        Some(join_path(fallback.as_str(), safe_filename.as_str()))
    }
}

} // verus!
