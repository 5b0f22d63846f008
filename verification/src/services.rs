//! systemd service names and the parsing of `systemctl` output.

use crate::error::ApiError;
use crate::text::{
    chars_eq, chars_eq_str, chars_of, copy_range, ends_with, find_char, has_suffix, join, join_chars,
    lines, lines_of, parse_uint, parse_unsigned, split_once, string_from_chars, views, words,
    words_of,
};
use vstd::prelude::*;

verus! {

/// One row of `systemctl list-units`.
pub struct ServiceSummary {
    pub name: String,
    pub load: String,
    pub active: String,
    pub sub: String,
    pub description: String,
}

/// The answer listing services.
pub struct ServiceListResponse {
    pub items: Vec<ServiceSummary>,
}

/// The properties `systemctl show` reports of one service.
pub struct ServiceDetails {
    pub name: String,
    pub load_state: String,
    pub active_state: String,
    pub sub_state: String,
    pub unit_file_state: String,
    pub description: String,
    pub fragment_path: Option<String>,
    pub main_pid: u32,
    pub memory_current: Option<u64>,
    pub cpu_usage_nsec: Option<u64>,
}

/// The answer carrying the journal lines of a service.
pub struct ServiceLogsResponse {
    pub items: Vec<String>,
}

/// A character allowed in a service name.
pub open spec fn service_name_char(c: char) -> bool {
    ('a' <= c <= 'z') || ('A' <= c <= 'Z') || ('0' <= c <= '9') || c == '_' || c == '-' || c
        == '.' || c == '@'
}

/// Whether every character of `s` is allowed in a service name.
pub open spec fn service_name_chars(s: Seq<char>) -> bool {
    forall|i: int| 0 <= i < s.len() ==> service_name_char(#[trigger] s[i])
}

/// Accepts a unit name that ends in `.service` and holds only ASCII letters,
/// digits and `_ - . @`; anything else could reach `systemctl` as an option
/// or a second argument.
pub fn validate_service_name(name: &str) -> (r: Result<(), ApiError>)
    ensures
        r is Ok <==> (has_suffix(name@, ".service"@) && service_name_chars(name@)),
        !has_suffix(name@, ".service"@) ==> (r matches Err(ApiError::BadRequest(m))
            && m@ == "service name must end with .service"@),
        has_suffix(name@, ".service"@) && !service_name_chars(name@) ==> (r matches Err(
            ApiError::BadRequest(m),
        ) && m@ == "service name contains invalid characters"@),
{
    let s = chars_of(name);
    let suffix = chars_of(".service");
    if !ends_with(s.as_slice(), suffix.as_slice()) {
        return Err(ApiError::bad_request("service name must end with .service".to_owned()));
    }
    let mut i: usize = 0;
    while i < s.len()
        invariant
            s@ == name@,
            has_suffix(name@, ".service"@),
            i <= s@.len(),
            forall|j: int| 0 <= j < i ==> service_name_char(#[trigger] s@[j]),
        decreases s@.len() - i,
    {
        let c = s[i];
        let ok = ('a' <= c && c <= 'z') || ('A' <= c && c <= 'Z') || ('0' <= c && c <= '9') || c
            == '_' || c == '-' || c == '.' || c == '@';
        if !ok {
            assert(!service_name_char(s@[i as int]));
            return Err(ApiError::bad_request("service name contains invalid characters".to_owned()));
        }
        i += 1;
    }
    Ok(())
}

/// The fields of a `list-units` row: name, load, active, sub and the
/// description (the remaining words joined by single spaces), when the row
/// has at least four words.
pub open spec fn unit_row(line: Seq<char>) -> Option<Seq<Seq<char>>> {
    let w = words(line);
    if w.len() >= 4 {
        Some(seq![w[0], w[1], w[2], w[3], join(w.subrange(4, w.len() as int), " "@)])
    } else {
        None
    }
}

/// The rows of the given lines, skipping lines with fewer than four words.
pub open spec fn unit_rows(ls: Seq<Seq<char>>) -> Seq<Seq<Seq<char>>>
    decreases ls.len(),
{
    if ls.len() == 0 {
        Seq::empty()
    } else {
        match unit_row(ls[0]) {
            Some(r) => seq![r] + unit_rows(ls.drop_first()),
            None => unit_rows(ls.drop_first()),
        }
    }
}

/// The fields of a summary, in the order `unit_row` gives them.
pub open spec fn summary_fields(s: ServiceSummary) -> Seq<Seq<char>> {
    seq![s.name@, s.load@, s.active@, s.sub@, s.description@]
}

/// Reads the output of `systemctl list-units --plain --no-legend`: one
/// summary per line that has at least four words, in order.
pub fn parse_list_units(output: &str) -> (items: Vec<ServiceSummary>)
    ensures
        items@.map_values(|s: ServiceSummary| summary_fields(s)) == unit_rows(lines(output@)),
{
    let text = chars_of(output);
    let ls = lines_of(text.as_slice());
    let ghost all = views(ls@);
    let mut items: Vec<ServiceSummary> = Vec::new();
    let mut i: usize = 0;
    assert(all.subrange(0, all.len() as int) =~= all);
    while i < ls.len()
        invariant
            all == views(ls@),
            i <= ls@.len(),
            items@.map_values(|s: ServiceSummary| summary_fields(s)) + unit_rows(
                all.subrange(i as int, all.len() as int),
            ) == unit_rows(all),
        decreases ls@.len() - i,
    {
        let ghost rest = all.subrange(i as int, all.len() as int);
        assert(rest.drop_first() =~= all.subrange(i + 1, all.len() as int));
        assert(rest[0] == ls[i as int]@);
        let w = words_of(ls[i].as_slice());
        let ghost before = items@.map_values(|s: ServiceSummary| summary_fields(s));
        if w.len() >= 4 {
            let tail = copy_words(&w, 4);
            let space = chars_of(" ");
            let desc = join_chars(&tail, space.as_slice());
            let item = ServiceSummary {
                name: string_from_chars(w[0].as_slice()),
                load: string_from_chars(w[1].as_slice()),
                active: string_from_chars(w[2].as_slice()),
                sub: string_from_chars(w[3].as_slice()),
                description: string_from_chars(desc.as_slice()),
            };
            items.push(item);
            assert(views(tail@) =~= views(w@).subrange(4, views(w@).len() as int));
            assert(summary_fields(item) =~= unit_row(rest[0])->0);
            assert(items@.map_values(|s: ServiceSummary| summary_fields(s)) =~= before.push(
                summary_fields(item),
            ));
        }
        i += 1;
    }
    assert(all.subrange(ls@.len() as int, all.len() as int) =~= Seq::<Seq<char>>::empty());
    items
}

/// Copies the words from position `from` on.
fn copy_words(w: &Vec<Vec<char>>, from: usize) -> (out: Vec<Vec<char>>)
    requires
        from <= w@.len(),
    ensures
        views(out@) == views(w@).subrange(from as int, w@.len() as int),
{
    let mut out: Vec<Vec<char>> = Vec::new();
    let mut i: usize = from;
    while i < w.len()
        invariant
            from <= i <= w@.len(),
            views(out@) == views(w@).subrange(from as int, i as int),
        decreases w@.len() - i,
    {
        let piece = copy_range(w[i].as_slice(), 0, w[i].len());
        let ghost before = views(out@);
        out.push(piece);
        assert(w[i as int]@.subrange(0, w[i as int]@.len() as int) =~= w[i as int]@);
        assert(views(out@) =~= before.push(w[i as int]@));
        assert(views(w@).subrange(from as int, i + 1) =~= views(w@).subrange(from as int, i as int).push(
            w[i as int]@,
        ));
        i += 1;
    }
    out
}

/// The value given to `key` by the last line of the form `key=value`.
pub open spec fn property(ls: Seq<Seq<char>>, key: Seq<char>) -> Option<Seq<char>>
    decreases ls.len(),
{
    if ls.len() == 0 {
        None
    } else {
        match split_once(ls.last(), '=') {
            Some(kv) if kv.0 == key => Some(kv.1),
            _ => property(ls.drop_last(), key),
        }
    }
}

/// A property's value, or the empty text when it is absent.
pub open spec fn property_or_empty(ls: Seq<Seq<char>>, key: Seq<char>) -> Seq<char> {
    match property(ls, key) {
        Some(v) => v,
        None => Seq::empty(),
    }
}

/// A property read as an unsigned number no greater than `max`.
pub open spec fn property_number(ls: Seq<Seq<char>>, key: Seq<char>, max: nat) -> Option<nat> {
    match property(ls, key) {
        Some(v) => match parse_unsigned(v) {
            Some(n) => if n <= max {
                Some(n)
            } else {
                None
            },
            None => None,
        },
        None => None,
    }
}

/// The unit file path, unless it is empty, `n/a` or `/dev/null`.
pub open spec fn fragment_of(ls: Seq<Seq<char>>) -> Option<Seq<char>> {
    match property(ls, "FragmentPath"@) {
        Some(v) => if v.len() == 0 || v == "n/a"@ || v == "/dev/null"@ {
            None
        } else {
            Some(v)
        },
        None => None,
    }
}

/// A `key=value` line splits at the `=` after the key, when the key holds
/// no `=`.
proof fn lemma_split_key_value(k: Seq<char>, v: Seq<char>)
    requires
        !k.contains('='),
    ensures
        split_once(k + seq!['='] + v, '=') == Some((k, v)),
{
    let s = k + seq!['='] + v;
    let n = k.len() as int;
    assert(s[n] == '=');
    let i = choose|i: int| 0 <= i < s.len() && s[i] == '=' && forall|j: int| 0 <= j < i ==> s[j] != '=';
    assert(exists|i: int| 0 <= i < s.len() && s[i] == '=' && forall|j: int| 0 <= j < i ==> s[j] != '=') by {
        assert forall|j: int| 0 <= j < n implies s[j] != '=' by {
            assert(s[j] == k[j]);
        }
    }
    if i < n {
        assert(s[i] == k[i]);
        assert(k.contains(k[i]));
    }
    if i > n {
        assert(s[n] != '=');
    }
    assert(i == n);
    assert(s.subrange(0, n) =~= k);
    assert(s.subrange(n + 1, s.len() as int) =~= v);
}

/// The last `FragmentPath` line decides the unit file path: when its value
/// is empty, `n/a` or `/dev/null` (as for a masked unit) there is none,
/// whatever came before; otherwise the path is that value.
pub proof fn lemma_last_fragment_line_decides(ls: Seq<Seq<char>>, v: Seq<char>)
    ensures
        (v.len() == 0 || v == "n/a"@ || v == "/dev/null"@) ==> fragment_of(
            ls.push("FragmentPath"@ + seq!['='] + v),
        ) is None,
        !(v.len() == 0 || v == "n/a"@ || v == "/dev/null"@) ==> fragment_of(
            ls.push("FragmentPath"@ + seq!['='] + v),
        ) == Some(v),
{
    reveal_strlit("FragmentPath");
    let k = "FragmentPath"@;
    assert(!k.contains('=')) by {
        assert forall|j: int| 0 <= j < k.len() implies k[j] != '=' by {}
    }
    lemma_split_key_value(k, v);
    let l2 = ls.push(k + seq!['='] + v);
    assert(l2.last() == k + seq!['='] + v);
    assert(property(l2, k) == Some(v));
}

/// The value of `key` in the given lines.
fn lookup_property(ls: &Vec<Vec<char>>, key: &str) -> (r: Option<Vec<char>>)
    ensures
        match r {
            Some(v) => property(views(ls@), key@) == Some(v@),
            None => property(views(ls@), key@) is None,
        },
{
    let k = chars_of(key);
    let mut found: Option<Vec<char>> = None;
    let mut i: usize = 0;
    let ghost all = views(ls@);
    while i < ls.len()
        invariant
            all == views(ls@),
            k@ == key@,
            i <= ls@.len(),
            match found {
                Some(v) => property(all.subrange(0, i as int), key@) == Some(v@),
                None => property(all.subrange(0, i as int), key@) is None,
            },
        decreases ls@.len() - i,
    {
        let line = &ls[i];
        let line_len: usize = line.len();
        let ghost pre = all.subrange(0, i + 1);
        assert(pre.drop_last() =~= all.subrange(0, i as int));
        assert(pre.last() == line@);
        match find_char(line.as_slice(), '=') {
            Some(p) => {
                let name = copy_range(line.as_slice(), 0, p);
                if chars_eq(name.as_slice(), k.as_slice()) {
                    let value = copy_range(line.as_slice(), p + 1, line_len);
                    found = Some(value);
                }
            },
            None => {},
        }
        i += 1;
    }
    assert(all.subrange(0, ls@.len() as int) =~= all);
    found
}

/// The value of `key`, or the empty string.
fn property_string(ls: &Vec<Vec<char>>, key: &str) -> (s: String)
    ensures
        s@ == property_or_empty(views(ls@), key@),
{
    match lookup_property(ls, key) {
        Some(v) => string_from_chars(v.as_slice()),
        None => String::new(),
    }
}

/// The value of `key` read as a number no greater than `max`.
fn property_u64(ls: &Vec<Vec<char>>, key: &str, max: u64) -> (r: Option<u64>)
    ensures
        match r {
            Some(n) => property_number(views(ls@), key@, max as nat) == Some(n as nat),
            None => property_number(views(ls@), key@, max as nat) is None,
        },
{
    match lookup_property(ls, key) {
        Some(v) => parse_uint(v.as_slice(), max),
        None => None,
    }
}

/// Reads the `key=value` lines of `systemctl show`. A key given twice takes
/// its last value; a missing `Id` reads as `unknown.service`, other missing
/// texts as empty, `MainPID` as 0 when missing or not a `u32`, and the
/// counters as absent when missing or not a `u64`.
pub fn parse_show_properties(output: &str) -> (d: ServiceDetails)
    ensures
        ({
            let ls = lines(output@);
            &&& d.name@ == match property(ls, "Id"@) {
                Some(v) => v,
                None => "unknown.service"@,
            }
            &&& d.load_state@ == property_or_empty(ls, "LoadState"@)
            &&& d.active_state@ == property_or_empty(ls, "ActiveState"@)
            &&& d.sub_state@ == property_or_empty(ls, "SubState"@)
            &&& d.unit_file_state@ == property_or_empty(ls, "UnitFileState"@)
            &&& d.description@ == property_or_empty(ls, "Description"@)
            &&& match d.fragment_path {
                Some(p) => fragment_of(ls) == Some(p@),
                None => fragment_of(ls) is None,
            }
            &&& d.main_pid as nat == match property_number(ls, "MainPID"@, u32::MAX as nat) {
                Some(n) => n,
                None => 0,
            }
            &&& match d.memory_current {
                Some(n) => property_number(ls, "MemoryCurrent"@, u64::MAX as nat) == Some(n as nat),
                None => property_number(ls, "MemoryCurrent"@, u64::MAX as nat) is None,
            }
            &&& match d.cpu_usage_nsec {
                Some(n) => property_number(ls, "CPUUsageNSec"@, u64::MAX as nat) == Some(n as nat),
                None => property_number(ls, "CPUUsageNSec"@, u64::MAX as nat) is None,
            }
        }),
{
    let text = chars_of(output);
    let ls = lines_of(text.as_slice());
    let name = match lookup_property(&ls, "Id") {
        Some(v) => string_from_chars(v.as_slice()),
        None => "unknown.service".to_owned(),
    };
    let fragment_path = match lookup_property(&ls, "FragmentPath") {
        Some(v) => {
            if v.len() == 0 || chars_eq_str(v.as_slice(), "n/a") || chars_eq_str(
                v.as_slice(),
                "/dev/null",
            ) {
                None
            } else {
                Some(string_from_chars(v.as_slice()))
            }
        },
        None => None,
    };
    let main_pid = match property_u64(&ls, "MainPID", 0xffff_ffff) {
        Some(n) => n as u32,
        None => 0,
    };
    ServiceDetails {
        name,
        load_state: property_string(&ls, "LoadState"),
        active_state: property_string(&ls, "ActiveState"),
        sub_state: property_string(&ls, "SubState"),
        unit_file_state: property_string(&ls, "UnitFileState"),
        description: property_string(&ls, "Description"),
        fragment_path,
        main_pid,
        memory_current: property_u64(&ls, "MemoryCurrent", u64::MAX),
        cpu_usage_nsec: property_u64(&ls, "CPUUsageNSec", u64::MAX),
    }
}

/// Each line of a command's output as a string, as `str::lines` splits it.
pub fn output_lines(output: &str) -> (items: Vec<String>)
    ensures
        items@.map_values(|s: String| s@) == lines(output@),
{
    let text = chars_of(output);
    let ls = lines_of(text.as_slice());
    let mut items: Vec<String> = Vec::new();
    let mut i: usize = 0;
    while i < ls.len()
        invariant
            i <= ls@.len(),
            items@.map_values(|s: String| s@) == views(ls@).subrange(0, i as int),
        decreases ls@.len() - i,
    {
        let s = string_from_chars(ls[i].as_slice());
        let ghost before = items@.map_values(|s: String| s@);
        items.push(s);
        assert(items@.map_values(|s: String| s@) =~= before.push(ls[i as int]@));
        assert(views(ls@).subrange(0, i + 1) =~= views(ls@).subrange(0, i as int).push(
            ls[i as int]@,
        ));
        i += 1;
    }
    assert(views(ls@).subrange(0, ls@.len() as int) =~= views(ls@));
    items
}

} // verus!

verus! {

/// The error for a command that could not be started.
pub fn command_spawn_error(program: &str, err_text: &str) -> (e: ApiError)
    ensures
        e matches ApiError::Message { code, message } && code@ == "command_spawn_failed"@ && message@
            == program@ + ": "@ + err_text@,
{
    ApiError::message("command_spawn_failed", crate::text::concat3(program, ": ", err_text))
}

/// The error for a command that exited unsuccessfully.
pub fn command_failed_error(program: &str, status_text: &str, stderr: &str) -> (e: ApiError)
    ensures
        e matches ApiError::Message { code, message } && code@ == "command_failed"@ && message@
            == if crate::text::trim(stderr@).len() == 0 {
            program@ + " exited with status "@ + status_text@
        } else {
            crate::text::trim(stderr@)
        },
{
    ApiError::message("command_failed", crate::servers::failure_message(program, status_text, stderr))
}

} // verus!
