//! The file browser: which paths it may touch, names it accepts, what it
//! previews as text and how it lists a directory.

use crate::error::{bad_request_with, ApiError};
use crate::paths::{
    components, extension_chars, extension_of, file_name_chars, file_name_of, has_root,
    is_within_allowed_roots, join_path, join_path_str, parent_chars, parent_of, plain_roots,
    within_some, FileAllowlist, canonical_components, canonical_roots, lemma_join_component, within,
    Comp,
};
use crate::text::{
    ascii_lower, ascii_lowercase, chars_eq_str, chars_of, concat3, find, find_char,
    string_from_chars, trim,
};
use vstd::prelude::*;
use vstd::utf8::{decode_utf8, encode_utf8, valid_utf8};
use crate::ordering::{apply_order, bytes_to_vec, key_views, stable_order, stable_order_of};
use crate::text::{lower_text, to_lowercase};

verus! {

/// The most bytes of a file the preview reads.
pub const PREVIEW_LIMIT_BYTES: usize = 262144;

/// A request naming a path, which may be absent.
pub struct PathQuery {
    pub path: Option<String>,
}

/// A request to create `name` inside the directory `path`.
pub struct NameRequest {
    pub path: String,
    pub name: String,
}

/// A request to give `path` the name `new_name`.
pub struct RenameRequest {
    pub path: String,
    pub new_name: String,
}

/// A request to delete `path`.
pub struct DeleteRequest {
    pub path: String,
}

/// What a directory entry is.
#[derive(Clone, Copy, Debug, PartialEq, Eq)]
pub enum FileKind {
    File,
    Dir,
    Symlink,
    Other,
}

/// One entry of a directory listing.
pub struct FileEntry {
    pub name: String,
    pub path: String,
    pub kind: FileKind,
    pub size: u64,
    pub modified: Option<String>,
    pub readonly: bool,
}

/// A directory listing.
pub struct FileListResponse {
    pub path: String,
    pub parent_path: Option<String>,
    pub allowed_roots: Vec<String>,
    pub entries: Vec<FileEntry>,
}

/// The text preview of a file.
pub struct FilePreviewResponse {
    pub path: String,
    pub size: u64,
    pub truncated: bool,
    pub content: String,
}

/// The answer to a create or rename.
pub struct FileActionResponse {
    pub ok: bool,
    pub path: String,
}

/// The answer to a delete.
pub struct FileDeleteResponse {
    pub ok: bool,
    pub parent_path: Option<String>,
}

/// A path as text (paths are held as text here).
pub fn path_to_string(path: &str) -> (s: String)
    ensures
        s@ == path@,
{
    path.to_owned()
}

/// What is wrong with a name for a new entry, if anything: it must not be
/// empty or hold a NUL, must be exactly one path component, and must not be
/// `.` or `..`.
pub open spec fn name_problem(n: Seq<char>) -> Option<Seq<char>> {
    if n.len() == 0 || find(n, '\0') is Some {
        Some("name is required"@)
    } else if components(n).len() != 1 {
        Some("name must not contain path separators"@)
    } else if n == "."@ || n == ".."@ {
        Some("name must not be a traversal segment"@)
    } else {
        None
    }
}

/// Accepts a name for a new entry.
pub fn validate_component_name(name: &str) -> (r: Result<&str, ApiError>)
    ensures
        match name_problem(name@) {
            Some(m) => (r matches Err(e) && bad_request_with(e, m)),
            None => r == Ok::<&str, ApiError>(name),
        },
{
    let n = chars_of(name);
    if n.len() == 0 || find_char(n.as_slice(), '\0').is_some() {
        return Err(ApiError::bad_request("name is required".to_owned()));
    }
    let cs = crate::paths::path_components(n.as_slice());
    if cs.len() != 1 {
        return Err(ApiError::bad_request("name must not contain path separators".to_owned()));
    }
    if chars_eq_str(n.as_slice(), ".") || chars_eq_str(n.as_slice(), "..") {
        return Err(ApiError::bad_request("name must not be a traversal segment".to_owned()));
    }
    Ok(name)
}

/// Refuses a relative path.
pub fn ensure_absolute(path: &str) -> (r: Result<(), ApiError>)
    ensures
        r is Ok <==> has_root(path@),
        !has_root(path@) ==> (r matches Err(e) && bad_request_with(e, "path must be absolute"@)),
{
    let c = chars_of(path);
    if c.len() > 0 && c[0] == '/' {
        Ok(())
    } else {
        Err(ApiError::bad_request("path must be absolute".to_owned()))
    }
}

/// The parent of `path`, when it lies inside one of `roots`.
pub fn resolve_parent_if_allowed(path: &str, roots: &[String]) -> (r: Option<String>)
    ensures
        match parent_of(path@) {
            Some(p) => if within_some(components(p), plain_roots(roots@)) {
                (r matches Some(s) && s@ == p)
            } else {
                r is None
            },
            None => r is None,
        },
{
    let c = chars_of(path);
    match parent_chars(c.as_slice()) {
        Some(p) => {
            let s = string_from_chars(p.as_slice());
            if is_within_allowed_roots(s.as_str(), roots) {
                Some(s)
            } else {
                None
            }
        },
        None => None,
    }
}

/// What an entry is, from its file type: a symlink first, then a
/// directory, then a regular file, else something else.
pub fn file_kind(is_symlink: bool, is_dir: bool, is_file: bool) -> (k: FileKind)
    ensures
        k == if is_symlink {
            FileKind::Symlink
        } else if is_dir {
            FileKind::Dir
        } else if is_file {
            FileKind::File
        } else {
            FileKind::Other
        },
{
    if is_symlink {
        FileKind::Symlink
    } else if is_dir {
        FileKind::Dir
    } else if is_file {
        FileKind::File
    } else {
        FileKind::Other
    }
}

/// Extensions (in lower case) of files the preview treats as text.
pub open spec fn text_extension(e: Seq<char>) -> bool {
    e == "txt"@ || e == "md"@ || e == "rst"@ || e == "json"@ || e == "toml"@ || e == "yaml"@ || e
        == "yml"@ || e == "ini"@ || e == "conf"@ || e == "cfg"@ || e == "log"@ || e == "csv"@ || e
        == "xml"@ || e == "html"@ || e == "htm"@ || e == "css"@ || e == "js"@ || e == "mjs"@ || e
        == "ts"@ || e == "tsx"@ || e == "jsx"@ || e == "rs"@ || e == "py"@ || e == "sh"@ || e
        == "service"@ || e == "timer"@ || e == "socket"@ || e == "target"@ || e == "mount"@ || e
        == "path"@ || e == "slice"@
}

/// File names (in lower case) the preview treats as text.
pub open spec fn text_file_name(n: Seq<char>) -> bool {
    n == "makefile"@ || n == "dockerfile"@ || n == "readme"@ || n == "readme.md"@ || n
        == "license"@
}

/// Whether `e` is one of the text extensions.
fn is_text_extension(e: &[char]) -> (b: bool)
    ensures
        b == text_extension(e@),
{
    chars_eq_str(e, "txt") || chars_eq_str(e, "md") || chars_eq_str(e, "rst") || chars_eq_str(
        e,
        "json",
    ) || chars_eq_str(e, "toml") || chars_eq_str(e, "yaml") || chars_eq_str(e, "yml")
        || chars_eq_str(e, "ini") || chars_eq_str(e, "conf") || chars_eq_str(e, "cfg")
        || chars_eq_str(e, "log") || chars_eq_str(e, "csv") || chars_eq_str(e, "xml")
        || chars_eq_str(e, "html") || chars_eq_str(e, "htm") || chars_eq_str(e, "css")
        || chars_eq_str(e, "js") || chars_eq_str(e, "mjs") || chars_eq_str(e, "ts")
        || chars_eq_str(e, "tsx") || chars_eq_str(e, "jsx") || chars_eq_str(e, "rs")
        || chars_eq_str(e, "py") || chars_eq_str(e, "sh") || chars_eq_str(e, "service")
        || chars_eq_str(e, "timer") || chars_eq_str(e, "socket") || chars_eq_str(e, "target")
        || chars_eq_str(e, "mount") || chars_eq_str(e, "path") || chars_eq_str(e, "slice")
}

/// Whether `n` is one of the text file names.
fn is_text_file_name(n: &[char]) -> (b: bool)
    ensures
        b == text_file_name(n@),
{
    chars_eq_str(n, "makefile") || chars_eq_str(n, "dockerfile") || chars_eq_str(n, "readme")
        || chars_eq_str(n, "readme.md") || chars_eq_str(n, "license")
}

/// Whether `bytes` are well-formed UTF-8.
/// Calls `std::str::from_utf8`, which the std documentation states succeeds
/// exactly on well-formed UTF-8.
#[verifier::external_body]
fn utf8_valid(bytes: &[u8]) -> (b: bool)
    ensures
        b == valid_utf8(bytes@),
{
    std::str::from_utf8(bytes).is_ok()
}

/// The text of `bytes` when they are well-formed UTF-8.
/// Calls `String::from_utf8`, which the std documentation states succeeds
/// exactly on well-formed UTF-8 and keeps the characters they encode.
#[verifier::external_body]
fn utf8_string(bytes: Vec<u8>) -> (r: Option<String>)
    ensures
        r is Some <==> valid_utf8(bytes@),
        r matches Some(s) ==> s@ == decode_utf8(bytes@),
{
    String::from_utf8(bytes).ok()
}

/// The lower-cased text of an optional piece of a path, empty when absent.
pub open spec fn lower_or_empty(v: Option<Seq<char>>) -> Seq<char> {
    match v {
        Some(s) => ascii_lower(s),
        None => Seq::empty(),
    }
}

/// Whether the preview treats a file as text: its bytes hold no NUL and are
/// well-formed UTF-8, and its extension or its name (in lower case) is one
/// of the known text ones.
pub open spec fn probably_text(path: Seq<char>, bytes: Seq<u8>) -> bool {
    &&& !bytes.contains(0u8)
    &&& valid_utf8(bytes)
    &&& (text_extension(lower_or_empty(extension_of(path))) || text_file_name(
        lower_or_empty(file_name_of(path)),
    ))
}

/// Which files the preview treats as text. Bytes with a NUL, or that are
/// not well-formed UTF-8, are never text. Otherwise a file is text when its
/// extension, in any case, is one of `txt`, `md`, `rst`, `json`, `toml`,
/// `yaml`, `yml`, `ini`, `conf`, `cfg`, `log`, `csv`, `xml`, `html`, `htm`,
/// `css`, `js`, `mjs`, `ts`, `tsx`, `jsx`, `rs`, `py`, `sh`, `service`,
/// `timer`, `socket`, `target`, `mount`, `path` and `slice`, or when its
/// name, in any case, is `Makefile`, `Dockerfile`, `README`, `README.md` or
/// `LICENSE`.
pub proof fn lemma_text_files(path: Seq<char>, bytes: Seq<u8>, e: Seq<char>, n: Seq<char>)
    ensures
        bytes.contains(0u8) ==> !probably_text(path, bytes),
        !valid_utf8(bytes) ==> !probably_text(path, bytes),
        (!bytes.contains(0u8) && valid_utf8(bytes) && extension_of(path) == Some(e) && ({
            let x = ascii_lower(e);
            x == "txt"@ || x == "md"@ || x == "rst"@ || x == "json"@ || x == "toml"@ ||
            x == "yaml"@ || x == "yml"@ || x == "ini"@ || x == "conf"@ || x == "cfg"@ ||
            x == "log"@ || x == "csv"@ || x == "xml"@ || x == "html"@ || x == "htm"@ ||
            x == "css"@ || x == "js"@ || x == "mjs"@ || x == "ts"@ || x == "tsx"@ ||
            x == "jsx"@ || x == "rs"@ || x == "py"@ || x == "sh"@ || x == "service"@ ||
            x == "timer"@ || x == "socket"@ || x == "target"@ || x == "mount"@ ||
            x == "path"@ || x == "slice"@
        })) ==> probably_text(path, bytes),
        (!bytes.contains(0u8) && valid_utf8(bytes) && file_name_of(path) == Some(n) && ({
            let x = ascii_lower(n);
            x == "makefile"@ || x == "dockerfile"@ || x == "readme"@ || x == "readme.md"@ ||
            x == "license"@
        })) ==> probably_text(path, bytes),
{
}

/// Whether `bytes`, read from `path`, look like text.
pub fn is_probably_text(path: &str, bytes: &[u8]) -> (b: bool)
    ensures
        b == probably_text(path@, bytes@),
{
    let mut i: usize = 0;
    while i < bytes.len()
        invariant
            i <= bytes@.len(),
            forall|j: int| 0 <= j < i ==> bytes@[j] != 0u8,
        decreases bytes@.len() - i,
    {
        if bytes[i] == 0 {
            assert(bytes@.contains(0u8));
            return false;
        }
        i += 1;
    }
    if !utf8_valid(bytes) {
        return false;
    }
    let p = chars_of(path);
    let extension = match extension_chars(p.as_slice()) {
        Some(e) => ascii_lowercase(e.as_slice()),
        None => {
            let v: Vec<char> = Vec::new();
            assert(ascii_lower(v@) =~= v@);
            v
        },
    };
    let file_name = match file_name_chars(p.as_slice()) {
        Some(n) => ascii_lowercase(n.as_slice()),
        None => {
            let v: Vec<char> = Vec::new();
            v
        },
    };
    is_text_extension(extension.as_slice()) || is_text_file_name(file_name.as_slice())
}

/// Whether a file of `size` bytes is longer than the preview shows.
pub fn preview_truncated(size: u64) -> (t: bool)
    ensures
        t == (size > PREVIEW_LIMIT_BYTES),
{
    size > 262144u64
}

/// The preview of a file at `path` of `size` bytes whose first bytes are
/// `bytes`: only for regular files whose bytes look like text.
pub fn preview_content(path: &str, is_file: bool, size: u64, bytes: Vec<u8>) -> (r: Result<
    FilePreviewResponse,
    ApiError,
>)
    ensures
        !is_file ==> (r matches Err(e) && bad_request_with(
            e,
            "preview is only available for files"@,
        )),
        is_file && !probably_text(path@, bytes@) ==> (r matches Err(e) && bad_request_with(
            e,
            "preview is only available for text-like files"@,
        )),
        is_file && probably_text(path@, bytes@) ==> (r matches Ok(p) && p.path@ == path@ && p.size
            == size && p.truncated == (size > PREVIEW_LIMIT_BYTES) && p.content@ == decode_utf8(
            bytes@,
        )),
{
    if !is_file {
        return Err(ApiError::bad_request("preview is only available for files".to_owned()));
    }
    if !is_probably_text(path, bytes.as_slice()) {
        return Err(
            ApiError::bad_request("preview is only available for text-like files".to_owned()),
        );
    }
    match utf8_string(bytes) {
        Some(content) => Ok(
            FilePreviewResponse {
                path: path.to_owned(),
                size,
                truncated: preview_truncated(size),
                content,
            },
        ),
        None => Err(
            ApiError::bad_request("preview is only available for text-like files".to_owned()),
        ),
    }
}

/// The path of a new entry `name` inside `base`, once the name is accepted.
pub fn build_target_path(base: &str, name: &str) -> (r: Result<String, ApiError>)
    ensures
        match name_problem(name@) {
            Some(m) => (r matches Err(e) && bad_request_with(e, m)),
            None => (r matches Ok(p) && p@ == join_path(base@, name@)),
        },
{
    match validate_component_name(name) {
        Ok(n) => Ok(join_path_str(base, n)),
        Err(e) => Err(e),
    }
}

/// Refuses a raw path that holds a NUL or is relative; these are checked
/// before the path is resolved on disk.
pub fn check_requested_path(raw: &str) -> (r: Result<(), ApiError>)
    ensures
        find(raw@, '\0') is Some ==> (r matches Err(e) && bad_request_with(
            e,
            "path contains an invalid byte"@,
        )),
        find(raw@, '\0') is None && !has_root(raw@) ==> (r matches Err(e) && bad_request_with(
            e,
            "path must be absolute"@,
        )),
        r is Ok <==> (find(raw@, '\0') is None && has_root(raw@)),
{
    let c = chars_of(raw);
    if find_char(c.as_slice(), '\0').is_some() {
        return Err(ApiError::bad_request("path contains an invalid byte".to_owned()));
    }
    ensure_absolute(raw)
}

/// Admits a resolved path that the allowlist allows.
pub fn admit_path(allowlist: &FileAllowlist, canonical: String) -> (r: Result<String, ApiError>)
    ensures
        within_some(
            canonical_components(canonical@),
            canonical_roots(allowlist.allowed_paths@),
        ) ==> r == Ok::<String, ApiError>(canonical),
        !within_some(
            canonical_components(canonical@),
            canonical_roots(allowlist.allowed_paths@),
        ) ==> r matches Err(ApiError::Forbidden),
{
    if allowlist.is_allowed(canonical.as_str()) {
        Ok(canonical)
    } else {
        Err(ApiError::Forbidden)
    }
}

/// The directory a listing or upload is for: the requested path when it is
/// not blank, else the first accessible root.
pub fn pick_directory(raw: Option<&str>, roots: &[String]) -> (r: Result<String, ApiError>)
    ensures
        match raw {
            Some(p) if trim(p@).len() > 0 => (r matches Ok(s) && s@ == p@),
            _ => if roots@.len() > 0 {
                (r matches Ok(s) && s@ == roots@[0]@)
            } else {
                (r matches Err(e) && bad_request_with(
                    e,
                    "no accessible allowed paths are configured"@,
                ))
            },
        },
{
    match raw {
        Some(p) => {
            let t = crate::text::trim_string(p);
            if !t.as_str().is_empty() {
                return Ok(p.to_owned());
            }
        },
        None => {},
    }
    if roots.len() > 0 {
        Ok(roots[0].clone())
    } else {
        Err(ApiError::bad_request("no accessible allowed paths are configured".to_owned()))
    }
}

/// Admits a path that lies inside one of `roots`.
pub fn ensure_parent_allowed(path: &str, roots: &[String]) -> (r: Result<String, ApiError>)
    ensures
        within_some(components(path@), plain_roots(roots@)) ==> (r matches Ok(s) && s@ == path@),
        !within_some(components(path@), plain_roots(roots@)) ==> r matches Err(ApiError::Forbidden),
{
    if is_within_allowed_roots(path, roots) {
        Ok(path.to_owned())
    } else {
        Err(ApiError::Forbidden)
    }
}

/// The `Content-Disposition` value of a download: the file name with `"`
/// replaced by `_`, or `download.bin` when the path has no file name.
pub fn download_disposition(path: &str) -> (s: String)
    ensures
        s@ == "attachment; filename=\""@ + match file_name_of(path@) {
            Some(n) => n.map_values(|c: char| if c == '"' { '_' } else { c }),
            None => "download.bin"@,
        } + "\""@,
{
    let p = chars_of(path);
    let name = match file_name_chars(p.as_slice()) {
        Some(n) => {
            let mut out: Vec<char> = Vec::new();
            let mut i: usize = 0;
            while i < n.len()
                invariant
                    i <= n@.len(),
                    out@ == n@.subrange(0, i as int).map_values(
                        |c: char| if c == '"' { '_' } else { c },
                    ),
                decreases n@.len() - i,
            {
                let c = n[i];
                out.push(if c == '"' { '_' } else { c });
                assert(n@.subrange(0, i + 1).map_values(|c: char| if c == '"' { '_' } else { c })
                    =~= n@.subrange(0, i as int).map_values(
                    |c: char| if c == '"' { '_' } else { c },
                ).push(if c == '"' { '_' } else { c }));
                i += 1;
            }
            assert(n@.subrange(0, n@.len() as int) =~= n@);
            string_from_chars(out.as_slice())
        },
        None => "download.bin".to_owned(),
    };
    concat3("attachment; filename=\"", name.as_str(), "\"")
}


/// Where a kind of entry goes in a listing: directories, then symlinks,
/// then files, then anything else.
pub open spec fn kind_rank(k: FileKind) -> u8 {
    match k {
        FileKind::Dir => 0,
        FileKind::Symlink => 1,
        FileKind::File => 2,
        FileKind::Other => 3,
    }
}

/// The sort key of an entry: its kind's rank, then its lower-cased name in
/// `String` order (the order of its UTF-8 bytes); an ASCII name is lowered
/// letter by letter.
pub open spec fn entry_key(e: FileEntry) -> (u8, Seq<u8>) {
    (kind_rank(e.kind), encode_utf8(lower_text(e.name@)))
}

/// The sort keys of the entries.
pub open spec fn entry_keys(es: Seq<FileEntry>) -> Seq<(u8, Seq<u8>)> {
    es.map_values(|e: FileEntry| entry_key(e))
}

/// The rank of a kind of entry in a listing.
fn rank_of(k: FileKind) -> (r: u8)
    ensures
        r == kind_rank(k),
{
    match k {
        FileKind::Dir => 0,
        FileKind::Symlink => 1,
        FileKind::File => 2,
        FileKind::Other => 3,
    }
}

/// Sorts a listing, stably: directories first, then symlinks, files and
/// others, each group by lower-cased name.
pub fn sort_entries(entries: &mut Vec<FileEntry>)
    ensures
        exists|order: Seq<usize>|
            stable_order(entry_keys(old(entries)@), order) && final(entries)@.len() == old(
                entries,
            )@.len() && forall|k: int|
                0 <= k < order.len() ==> #[trigger] final(entries)@[k] == old(entries)@[order[k] as int],
{
    let ghost orig = entries@;
    let mut keys: Vec<(u8, Vec<u8>)> = Vec::new();
    let mut i: usize = 0;
    while i < entries.len()
        invariant
            orig == entries@,
            i <= entries@.len(),
            keys@.len() == i,
            forall|k: int| 0 <= k < i ==> #[trigger] key_views(keys@)[k] == entry_key(orig[k]),
        decreases entries@.len() - i,
    {
        let lower = to_lowercase(entries[i].name.as_str());
        let ls = lower.as_str();
        let bytes = bytes_to_vec(ls.as_bytes());
        assert(bytes@ == encode_utf8(ls@));
        let rank: u8 = rank_of(entries[i].kind);
        let ghost before = key_views(keys@);
        keys.push((rank, bytes));
        assert(key_views(keys@) =~= before.push((rank, bytes@)));
        assert(key_views(keys@)[i as int] == entry_key(orig[i as int]));
        i += 1;
    }
    assert(key_views(keys@) =~= entry_keys(orig));
    let order = stable_order_of(&keys);
    let mut items: Vec<FileEntry> = Vec::new();
    std::mem::swap(&mut items, entries);
    let sorted = apply_order(items, &order);
    *entries = sorted;
}

/// A directory listing of `directory`: refused unless it lies inside one of
/// `roots`; its entries sorted, its parent shown when that lies inside the
/// roots too.
pub fn directory_list_response(directory: &str, roots: &[String], entries: Vec<FileEntry>) -> (r:
    Result<FileListResponse, ApiError>)
    ensures
        !within_some(components(directory@), plain_roots(roots@)) ==> r matches Err(
            ApiError::Forbidden,
        ),
        within_some(components(directory@), plain_roots(roots@)) ==> (r matches Ok(l) && l.path@
            == directory@ && l.allowed_roots@ == roots@ && match parent_of(directory@) {
            Some(p) => if within_some(components(p), plain_roots(roots@)) {
                (l.parent_path matches Some(s) && s@ == p)
            } else {
                l.parent_path is None
            },
            None => l.parent_path is None,
        } && exists|order: Seq<usize>|
            stable_order(entry_keys(entries@), order) && l.entries@.len() == entries@.len()
                && forall|k: int|
                0 <= k < order.len() ==> #[trigger] l.entries@[k] == entries@[order[k] as int]),
{
    if !is_within_allowed_roots(directory, roots) {
        return Err(ApiError::Forbidden);
    }
    let mut entries = entries;
    sort_entries(&mut entries);
    let mut allowed_roots: Vec<String> = Vec::new();
    let mut i: usize = 0;
    while i < roots.len()
        invariant
            i <= roots@.len(),
            allowed_roots@ == roots@.subrange(0, i as int),
        decreases roots@.len() - i,
    {
        allowed_roots.push(roots[i].clone());
        assert(allowed_roots@ =~= roots@.subrange(0, i + 1));
        i += 1;
    }
    assert(allowed_roots@ =~= roots@);
    Ok(
        FileListResponse {
            path: path_to_string(directory),
            parent_path: resolve_parent_if_allowed(directory, roots),
            allowed_roots,
            entries,
        },
    )
}

} // verus!

verus! {

/// A new entry made inside an allowed directory stays inside the allowed
/// roots: an accepted name whose one component is a plain name adds just
/// that component to the directory's path.
pub proof fn lemma_target_stays_inside(base: Seq<char>, name: Seq<char>, roots: Seq<String>)
    requires
        name_problem(name) is None,
        components(name)[0] matches Comp::Normal(_),
        within_some(components(base), plain_roots(roots)),
    ensures
        components(join_path(base, name)) == components(base) + components(name),
        within_some(components(join_path(base, name)), plain_roots(roots)),
{
    let n = components(name)[0]->Normal_0;
    assert(components(name) =~= seq![Comp::Normal(n)]);
    lemma_join_component(base, name, n);
    let cb = components(base);
    let cj = cb.push(Comp::Normal(n));
    assert(cj =~= cb + components(name));
    let rs = plain_roots(roots);
    let i = choose|i: int| 0 <= i < rs.len() && within(cb, #[trigger] rs[i]);
    let root = rs[i];
    assert(cj.subrange(0, root.len() as int) =~= cb.subrange(0, root.len() as int));
    assert forall|k: int| root.len() <= k < cj.len() implies cj[k] != Comp::Parent by {
        if k < cb.len() {
            assert(cj[k] == cb[k]);
        }
    }
    assert(within(cj, rs[i]));
}

} // verus!
