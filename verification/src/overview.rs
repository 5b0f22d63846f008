//! The dashboard overview: figures read from `/proc`, systemd and the disks,
//! and how they are combined.

use crate::text::{
    append_chars, chars_eq_str, chars_of, copy_range, find_char, has_prefix, lines, lines_of,
    parse_uint, parse_unsigned, split_once, string_from_chars, strings_of, strip_prefix_chars,
    ascii_lower, ascii_text, lower_text, to_lowercase, trim, trim_string, views, words, words_of, lemma_words_from_nonempty,
};
use crate::ordering::{apply_order, before, bytes_to_vec, key_views, lemma_order_covers, stable_order, stable_order_of};
use vstd::prelude::*;
use vstd::utf8::encode_utf8;

verus! {

/// Space on one mounted file system.
pub struct DiskUsage {
    pub mount_point: String,
    pub total_bytes: Option<u64>,
    pub used_bytes: Option<u64>,
    pub available_bytes: Option<u64>,
}

/// How many services systemd knows of, runs, and sees failed.
pub struct ServiceCounts {
    pub total: Option<u64>,
    pub running: Option<u64>,
    pub failed: Option<u64>,
}

impl ServiceCounts {
    /// Counts that are all unknown.
    pub fn unknown() -> (c: ServiceCounts)
        ensures
            c.total is None && c.running is None && c.failed is None,
    {
        ServiceCounts { total: None, running: None, failed: None }
    }
}

/// The file path of an SQLite database URL: `sqlite:///p` gives `/p`,
/// `sqlite://p` and `sqlite:p` give `p`; any other URL gives none.
pub open spec fn sqlite_path(url: Seq<char>) -> Option<Seq<char>> {
    if has_prefix(url, "sqlite:///"@) {
        Some("/"@ + url.subrange(10, url.len() as int))
    } else if has_prefix(url, "sqlite://"@) {
        Some(url.subrange(9, url.len() as int))
    } else if has_prefix(url, "sqlite:"@) {
        Some(url.subrange(7, url.len() as int))
    } else {
        None
    }
}

/// The database file named by an SQLite URL.
pub fn resolve_sqlite_database_path(database_url: &str) -> (r: Option<String>)
    ensures
        match sqlite_path(database_url@) {
            Some(p) => (r matches Some(s) && s@ == p),
            None => r is None,
        },
{
    proof {
        reveal_strlit("sqlite:///");
        reveal_strlit("sqlite://");
        reveal_strlit("sqlite:");
    }
    let url = chars_of(database_url);
    match strip_prefix_chars(url.as_slice(), "sqlite:///") {
        Some(rest) => {
            let mut out: Vec<char> = vec!['/'];
            append_chars(&mut out, rest.as_slice());
            proof {
                reveal_strlit("/");
            }
            assert(out@ =~= "/"@ + rest@);
            return Some(string_from_chars(out.as_slice()));
        },
        None => {},
    }
    match strip_prefix_chars(url.as_slice(), "sqlite://") {
        Some(rest) => return Some(string_from_chars(rest.as_slice())),
        None => {},
    }
    match strip_prefix_chars(url.as_slice(), "sqlite:") {
        Some(rest) => Some(string_from_chars(rest.as_slice())),
        None => None,
    }
}

/// The active and sub state of a `list-units` line, lower-cased; absent
/// words read as empty.
pub open spec fn unit_states(line: Seq<char>) -> (Seq<char>, Seq<char>) {
    let w = words(line);
    (
        lower_text(if w.len() > 2 {
            w[2]
        } else {
            Seq::empty()
        }),
        lower_text(if w.len() > 3 {
            w[3]
        } else {
            Seq::empty()
        }),
    )
}

/// Whether a line counts as a service: its active state is not empty.
pub open spec fn counted(line: Seq<char>) -> bool {
    unit_states(line).0.len() > 0
}

/// Whether a counted line runs.
pub open spec fn counted_running(line: Seq<char>) -> bool {
    counted(line) && (unit_states(line).0 == "active"@ || unit_states(line).1 == "running"@)
}

/// Whether a counted line failed.
pub open spec fn counted_failed(line: Seq<char>) -> bool {
    counted(line) && (unit_states(line).0 == "failed"@ || unit_states(line).1 == "failed"@)
}

/// How many lines satisfy `f`.
pub open spec fn count_lines(ls: Seq<Seq<char>>, f: spec_fn(Seq<char>) -> bool) -> nat
    decreases ls.len(),
{
    if ls.len() == 0 {
        0
    } else {
        count_lines(ls.drop_last(), f) + if f(ls.last()) {
            1nat
        } else {
            0nat
        }
    }
}

/// Which unit lines count as services, running and failed. A line counts
/// when it has a third word, its active state; it runs when that state,
/// lower-cased, is `active`, or when its fourth word, the sub state, is
/// `running`; it failed when either is `failed`. A line runs or fails for
/// no other reason.
pub proof fn lemma_running_and_failed_lines(line: Seq<char>)
    ensures
        counted(line) ==> words(line).len() > 2,
        words(line).len() > 2 && lower_text(words(line)[2]) == "active"@ ==> counted(line)
            && counted_running(line),
        words(line).len() > 2 && lower_text(words(line)[2]) == "failed"@ ==> counted(line)
            && counted_failed(line),
        counted(line) && words(line).len() > 3 && lower_text(words(line)[3]) == "running"@
            ==> counted_running(line),
        counted(line) && words(line).len() > 3 && lower_text(words(line)[3]) == "failed"@
            ==> counted_failed(line),
        counted_running(line) ==> counted(line) && (lower_text(words(line)[2]) == "active"@ || (
        words(line).len() > 3 && lower_text(words(line)[3]) == "running"@)),
        counted_failed(line) ==> counted(line) && (lower_text(words(line)[2]) == "failed"@ || (
        words(line).len() > 3 && lower_text(words(line)[3]) == "failed"@)),
{
    reveal_strlit("active");
    reveal_strlit("failed");
    reveal_strlit("running");
    let e: Seq<char> = Seq::empty();
    assert(ascii_text(e));
    assert(ascii_lower(e) =~= e);
}

/// A unit line whose active state is `active` adds one service and one
/// running service to the counts of the lines before it.
pub proof fn lemma_active_line_adds_running(ls: Seq<Seq<char>>, line: Seq<char>)
    requires
        words(line).len() > 2,
        lower_text(words(line)[2]) == "active"@,
    ensures
        count_lines(ls.push(line), |l: Seq<char>| counted(l)) == count_lines(
            ls,
            |l: Seq<char>| counted(l),
        ) + 1,
        count_lines(ls.push(line), |l: Seq<char>| counted_running(l)) == count_lines(
            ls,
            |l: Seq<char>| counted_running(l),
        ) + 1,
{
    lemma_running_and_failed_lines(line);
    assert(ls.push(line).drop_last() =~= ls);
}

/// The active and sub state of a line, lower-cased.
fn line_states(line: &Vec<char>) -> (r: (String, String))
    ensures
        r.0@ == unit_states(line@).0,
        r.1@ == unit_states(line@).1,
        (words(line@).len() > 2) == (r.0@.len() > 0),
{
    let w = words_of(line.as_slice());
    proof {
        lemma_words_from_nonempty(line@, Seq::empty());
        if w@.len() > 2 {
            assert(views(w@)[2] == w@[2]@);
        }
    }
    let active = if w.len() > 2 {
        string_from_chars(w[2].as_slice())
    } else {
        String::new()
    };
    let sub = if w.len() > 3 {
        string_from_chars(w[3].as_slice())
    } else {
        String::new()
    };
    (to_lowercase(active.as_str()), to_lowercase(sub.as_str()))
}

/// Whether a string equals a literal.
fn is_lit(s: &String, lit: &str) -> (r: bool)
    ensures
        r == (s@ == lit@),
{
    let l = lit.to_owned();
    *s == l
}

/// Counts the services of `systemctl list-units --all --plain --no-legend`
/// output: lines with an active state, which are those of three or more
/// words; those active or with sub state `running` run; those with either
/// state `failed` failed.
pub fn service_counts(stdout: &str) -> (c: ServiceCounts)
    ensures
        ({
            let ls = lines(stdout@);
            &&& c.total == Some(count_lines(ls, |l: Seq<char>| counted(l)) as u64)
            &&& c.total == Some(count_lines(ls, |l: Seq<char>| words(l).len() > 2) as u64)
            &&& c.running->0 <= c.total->0
            &&& c.failed->0 <= c.total->0
            &&& c.running == Some(count_lines(ls, |l: Seq<char>| counted_running(l)) as u64)
            &&& c.failed == Some(count_lines(ls, |l: Seq<char>| counted_failed(l)) as u64)
            &&& count_lines(ls, |l: Seq<char>| counted(l)) <= ls.len()
        }),
{
    let text = chars_of(stdout);
    let ls = lines_of(text.as_slice());
    let ghost all = views(ls@);
    let mut total: u64 = 0;
    let mut running: u64 = 0;
    let mut failed: u64 = 0;
    let mut i: usize = 0;
    assert(all.subrange(0, 0) =~= Seq::<Seq<char>>::empty());
    while i < ls.len()
        invariant
            all == views(ls@),
            i <= ls@.len(),
            total as nat == count_lines(all.subrange(0, i as int), |l: Seq<char>| counted(l)),
            total as nat == count_lines(
                all.subrange(0, i as int),
                |l: Seq<char>| words(l).len() > 2,
            ),
            running <= total,
            failed <= total,
            running as nat == count_lines(
                all.subrange(0, i as int),
                |l: Seq<char>| counted_running(l),
            ),
            failed as nat == count_lines(all.subrange(0, i as int), |l: Seq<char>| counted_failed(l)),
            total <= i,
            running <= i,
            failed <= i,
        decreases ls@.len() - i,
    {
        let ghost pre = all.subrange(0, i + 1);
        assert(pre.drop_last() =~= all.subrange(0, i as int));
        assert(pre.last() == ls[i as int]@);
        let (active, sub) = line_states(&ls[i]);
        if !active.as_str().is_empty() {
            total += 1;
            if is_lit(&active, "active") || is_lit(&sub, "running") {
                running += 1;
            }
            if is_lit(&active, "failed") || is_lit(&sub, "failed") {
                failed += 1;
            }
        }
        i += 1;
    }
    assert(all.subrange(0, ls@.len() as int) =~= all);
    ServiceCounts { total: Some(total), running: Some(running), failed: Some(failed) }
}

/// The number on a `/proc/meminfo` line for `key`: the text before the
/// first `:` must be `key`, and the first word after it must be a `u64`.
pub open spec fn meminfo_line_value(line: Seq<char>, key: Seq<char>) -> Option<nat> {
    match split_once(line, ':') {
        Some(kv) => if kv.0 == key && words(kv.1).len() > 0 {
            match parse_unsigned(words(kv.1)[0]) {
                Some(n) => if n <= u64::MAX {
                    Some(n)
                } else {
                    None
                },
                None => None,
            }
        } else {
            None
        },
        None => None,
    }
}

/// The value of `key` in `/proc/meminfo` lines: that of the last line that
/// gives it a number.
pub open spec fn meminfo_value(ls: Seq<Seq<char>>, key: Seq<char>) -> Option<nat>
    decreases ls.len(),
{
    if ls.len() == 0 {
        None
    } else {
        match meminfo_line_value(ls.last(), key) {
            Some(n) => Some(n),
            None => meminfo_value(ls.drop_last(), key),
        }
    }
}

/// The number a line gives `key`.
fn line_value(line: &Vec<char>, key: &Vec<char>) -> (r: Option<u64>)
    ensures
        match r {
            Some(n) => meminfo_line_value(line@, key@) == Some(n as nat),
            None => meminfo_line_value(line@, key@) is None,
        },
{
    let len: usize = line.len();
    match find_char(line.as_slice(), ':') {
        Some(p) => {
            let k = copy_range(line.as_slice(), 0, p);
            if !crate::text::chars_eq(k.as_slice(), key.as_slice()) {
                return None;
            }
            let v = copy_range(line.as_slice(), p + 1, len);
            let w = words_of(v.as_slice());
            if w.len() == 0 {
                return None;
            }
            parse_uint(w[0].as_slice(), u64::MAX)
        },
        None => None,
    }
}

/// Reads `key` from the text of `/proc/meminfo`, as the overview does.
pub fn meminfo_lookup(contents: &str, key: &str) -> (r: Option<u64>)
    ensures
        match r {
            Some(n) => meminfo_value(lines(contents@), key@) == Some(n as nat),
            None => meminfo_value(lines(contents@), key@) is None,
        },
{
    let text = chars_of(contents);
    let ls = lines_of(text.as_slice());
    let k = chars_of(key);
    let ghost all = views(ls@);
    let mut found: Option<u64> = None;
    let mut i: usize = 0;
    assert(all.subrange(0, 0) =~= Seq::<Seq<char>>::empty());
    while i < ls.len()
        invariant
            all == views(ls@),
            k@ == key@,
            i <= ls@.len(),
            match found {
                Some(n) => meminfo_value(all.subrange(0, i as int), key@) == Some(n as nat),
                None => meminfo_value(all.subrange(0, i as int), key@) is None,
            },
        decreases ls@.len() - i,
    {
        let ghost pre = all.subrange(0, i + 1);
        assert(pre.drop_last() =~= all.subrange(0, i as int));
        assert(pre.last() == ls[i as int]@);
        match line_value(&ls[i], &k) {
            Some(n) => {
                found = Some(n);
            },
            None => {},
        }
        i += 1;
    }
    assert(all.subrange(0, ls@.len() as int) =~= all);
    found
}

/// What the system summary reads for `key` (written with its colon, as in
/// `MemTotal:`): the first line that begins with `key` decides; its second
/// word after `key` must be a `u64`.
pub open spec fn summary_field(ls: Seq<Seq<char>>, key: Seq<char>) -> Option<nat>
    decreases ls.len(),
{
    if ls.len() == 0 {
        None
    } else if has_prefix(ls[0], key) {
        let w = words(ls[0].subrange(key.len() as int, ls[0].len() as int));
        if w.len() > 1 {
            match parse_unsigned(w[1]) {
                Some(n) => if n <= u64::MAX {
                    Some(n)
                } else {
                    None
                },
                None => None,
            }
        } else {
            None
        }
    } else {
        summary_field(ls.drop_first(), key)
    }
}

/// Reads `key` from the text of `/proc/meminfo` as the system summary does.
pub fn read_meminfo_value(contents: &str, key: &str) -> (r: Option<u64>)
    ensures
        match r {
            Some(n) => summary_field(lines(contents@), key@) == Some(n as nat),
            None => summary_field(lines(contents@), key@) is None,
        },
{
    let text = chars_of(contents);
    let ls = lines_of(text.as_slice());
    let ghost all = views(ls@);
    let mut i: usize = 0;
    assert(all.subrange(0, all.len() as int) =~= all);
    while i < ls.len()
        invariant
            all == views(ls@),
            all == lines(contents@),
            i <= ls@.len(),
            summary_field(all.subrange(i as int, all.len() as int), key@) == summary_field(
                all,
                key@,
            ),
        decreases ls@.len() - i,
    {
        let ghost rest = all.subrange(i as int, all.len() as int);
        assert(rest.drop_first() =~= all.subrange(i + 1, all.len() as int));
        assert(rest[0] == ls[i as int]@);
        match strip_prefix_chars(ls[i].as_slice(), key) {
            Some(value) => {
                let w = words_of(value.as_slice());
                if w.len() > 1 {
                    return parse_uint(w[1].as_slice(), u64::MAX);
                }
                return None;
            },
            None => {},
        }
        i += 1;
    }
    None
}

/// The machine's host name: the trimmed text, unless it is empty.
pub fn hostname_from(contents: &str) -> (r: Option<String>)
    ensures
        match r {
            Some(s) => s@ == trim(contents@) && s@.len() > 0,
            None => trim(contents@).len() == 0,
        },
{
    let t = trim_string(contents);
    if t.as_str().is_empty() {
        None
    } else {
        Some(t)
    }
}

/// The addresses printed by `hostname -I`, one per word.
pub fn primary_ips(stdout: &str) -> (ips: Vec<String>)
    ensures
        ips@.map_values(|s: String| s@) == words(stdout@),
{
    let text = chars_of(stdout);
    let w = words_of(text.as_slice());
    strings_of(&w)
}

/// Memory figures in bytes.
pub struct MemoryFigures {
    pub total_bytes: Option<u64>,
    pub available_bytes: Option<u64>,
    pub used_bytes: Option<u64>,
}

/// Available memory in KiB: `MemAvailable` when given, else the sum of
/// `MemFree`, `Buffers` and `Cached` when all three are given (saturating).
pub open spec fn available_kb(
    available: Option<u64>,
    free: Option<u64>,
    buffers: Option<u64>,
    cached: Option<u64>,
) -> Option<nat> {
    match available {
        Some(a) => Some(a as nat),
        None => match (free, buffers, cached) {
            (Some(f), Some(b), Some(c)) => Some(
                if f + b + c > u64::MAX {
                    u64::MAX as nat
                } else {
                    (f + b + c) as nat
                },
            ),
            _ => None,
        },
    }
}

/// The memory figures of the overview from the KiB values of
/// `/proc/meminfo`: totals and available memory in bytes, and used memory
/// as total minus available (never below 0).
pub fn memory_figures(
    total_kb: Option<u64>,
    available: Option<u64>,
    free: Option<u64>,
    buffers: Option<u64>,
    cached: Option<u64>,
) -> (m: MemoryFigures)
    requires
        total_kb matches Some(t) ==> t * 1024 <= u64::MAX,
        available_kb(available, free, buffers, cached) matches Some(a) ==> a * 1024 <= u64::MAX,
    ensures
        m.total_bytes == match total_kb {
            Some(t) => Some((t * 1024) as u64),
            None => None,
        },
        m.available_bytes == match available_kb(available, free, buffers, cached) {
            Some(a) => Some((a * 1024) as u64),
            None => None,
        },
        m.used_bytes == match (m.total_bytes, m.available_bytes) {
            (Some(t), Some(a)) => Some(if t >= a {
                (t - a) as u64
            } else {
                0u64
            }),
            _ => None,
        },
{
    let avail_kb: Option<u64> = match available {
        Some(a) => Some(a),
        None => match (free, buffers, cached) {
            (Some(f), Some(b), Some(c)) => Some(f.saturating_add(b).saturating_add(c)),
            _ => None,
        },
    };
    let total_bytes = match total_kb {
        Some(t) => Some(t * 1024),
        None => None,
    };
    let available_bytes = match avail_kb {
        Some(a) => Some(a * 1024),
        None => None,
    };
    let used_bytes = match (total_bytes, available_bytes) {
        (Some(t), Some(a)) => Some(t.saturating_sub(a)),
        _ => None,
    };
    MemoryFigures { total_bytes, available_bytes, used_bytes }
}

/// The memory figures of the overview, when the KiB values fit in bytes:
/// none when the total or the available memory, times 1024, would not fit
/// in a `u64` (where the overview's multiplication overflows).
pub fn memory_figures_checked(
    total_kb: Option<u64>,
    available: Option<u64>,
    free: Option<u64>,
    buffers: Option<u64>,
    cached: Option<u64>,
) -> (r: Option<MemoryFigures>)
    ensures
        r is None <==> ((total_kb matches Some(t) && t * 1024 > u64::MAX) || (available_kb(
            available,
            free,
            buffers,
            cached,
        ) matches Some(a) && a * 1024 > u64::MAX)),
        r matches Some(m) ==> {
            &&& m.total_bytes == match total_kb {
                Some(t) => Some((t * 1024) as u64),
                None => None,
            }
            &&& m.available_bytes == match available_kb(available, free, buffers, cached) {
                Some(a) => Some((a * 1024) as u64),
                None => None,
            }
            &&& m.used_bytes == match (m.total_bytes, m.available_bytes) {
                (Some(t), Some(a)) => Some(
                    if t >= a {
                        (t - a) as u64
                    } else {
                        0u64
                    },
                ),
                _ => None,
            }
        },
{
    let avail_kb: Option<u64> = match available {
        Some(a) => Some(a),
        None => match (free, buffers, cached) {
            (Some(f), Some(b), Some(c)) => Some(f.saturating_add(b).saturating_add(c)),
            _ => None,
        },
    };
    let total_fits = match total_kb {
        Some(t) => t <= u64::MAX / 1024,
        None => true,
    };
    let avail_fits = match avail_kb {
        Some(a) => a <= u64::MAX / 1024,
        None => true,
    };
    if total_fits && avail_fits {
        Some(memory_figures(total_kb, available, free, buffers, cached))
    } else {
        None
    }
}

/// The space of a file system from `statvfs` figures: total and available
/// bytes are block counts times the fragment size, used is their
/// difference (never below 0); none when a product overflows.
pub fn disk_usage_from(
    mount_point: String,
    fragment_size: u64,
    blocks: u64,
    blocks_available: u64,
) -> (r: Option<DiskUsage>)
    ensures
        (blocks * fragment_size > u64::MAX || blocks_available * fragment_size > u64::MAX) <==> r is None,
        r matches Some(d) ==> d.mount_point == mount_point && d.total_bytes == Some(
            (blocks * fragment_size) as u64,
        ) && d.available_bytes == Some((blocks_available * fragment_size) as u64) && d.used_bytes
            == Some(
            if blocks * fragment_size >= blocks_available * fragment_size {
                (blocks * fragment_size - blocks_available * fragment_size) as u64
            } else {
                0u64
            },
        ),
{
    let total: u64 = match blocks.checked_mul(fragment_size) {
        Some(t) => t,
        None => return None,
    };
    let available: u64 = match blocks_available.checked_mul(fragment_size) {
        Some(a) => a,
        None => return None,
    };
    Some(
        DiskUsage {
            mount_point,
            total_bytes: Some(total),
            used_bytes: Some(total.saturating_sub(available)),
            available_bytes: Some(available),
        },
    )
}


/// Where a mount point goes in the disk list: `/`, then `/mnt/games`, then
/// `/var/lib/homepanel`, then any other.
pub open spec fn mount_rank(m: Seq<char>) -> u8 {
    if m == "/"@ {
        0
    } else if m == "/mnt/games"@ {
        1
    } else if m == "/var/lib/homepanel"@ {
        2
    } else {
        3
    }
}

/// The sort key of a disk: its mount point's rank, then the mount point in
/// `String` order.
pub open spec fn disk_key(d: (Option<u64>, DiskUsage)) -> (u8, Seq<u8>) {
    (mount_rank(d.1.mount_point@), encode_utf8(d.1.mount_point@))
}

/// The sort keys of the disks.
pub open spec fn disk_keys(ds: Seq<(Option<u64>, DiskUsage)>) -> Seq<(u8, Seq<u8>)> {
    ds.map_values(|d: (Option<u64>, DiskUsage)| disk_key(d))
}

/// Whether a disk is dropped from the list given the disks kept before it:
/// one on a device already listed, unless it is `/` or `/mnt/games`; and
/// `/var/lib/homepanel` when a kept disk has the same total and available
/// space.
pub open spec fn dropped(kept: Seq<(Option<u64>, DiskUsage)>, d: (Option<u64>, DiskUsage)) -> bool {
    let m = d.1.mount_point@;
    let same_device = d.0 is Some && exists|k: int| 0 <= k < kept.len() && #[trigger] kept[k].0 == d.0;
    let same_signature = exists|k: int|
        0 <= k < kept.len() && #[trigger] kept[k].1.total_bytes == d.1.total_bytes
            && kept[k].1.available_bytes == d.1.available_bytes;
    (same_device && m != "/"@ && m != "/mnt/games"@) || (same_signature && m
        == "/var/lib/homepanel"@)
}

/// A disk mounted at `/` or `/mnt/games` is never dropped, whatever disks
/// were kept before it, even one on the same device.
pub proof fn lemma_root_and_games_never_dropped(
    kept: Seq<(Option<u64>, DiskUsage)>,
    d: (Option<u64>, DiskUsage),
)
    requires
        d.1.mount_point@ == "/"@ || d.1.mount_point@ == "/mnt/games"@,
    ensures
        !dropped(kept, d),
{
    reveal_strlit("/");
    reveal_strlit("/mnt/games");
    reveal_strlit("/var/lib/homepanel");
    assert("/"@.len() != "/var/lib/homepanel"@.len());
    assert("/mnt/games"@.len() != "/var/lib/homepanel"@.len());
    assert(d.1.mount_point@ != "/var/lib/homepanel"@);
}

/// The disks kept, in order, scanning `items` after having kept `kept`.
pub open spec fn dedupe_from(
    items: Seq<(Option<u64>, DiskUsage)>,
    kept: Seq<(Option<u64>, DiskUsage)>,
) -> Seq<(Option<u64>, DiskUsage)>
    decreases items.len(),
{
    if items.len() == 0 {
        kept
    } else {
        dedupe_from(
            items.drop_first(),
            if dropped(kept, items[0]) {
                kept
            } else {
                kept.push(items[0])
            },
        )
    }
}

/// The rules by which a disk leaves the list: one on a device that a disk
/// kept before it has is dropped unless it is `/` or `/mnt/games`;
/// `/var/lib/homepanel` is dropped when a kept disk has its total and
/// available space; any other disk is kept.
pub proof fn lemma_disk_dedup_rules(kept: Seq<(Option<u64>, DiskUsage)>, d: (Option<u64>, DiskUsage))
    ensures
        (d.0 is Some && (exists|k: int| 0 <= k < kept.len() && kept[k].0 == d.0)
            && d.1.mount_point@ != "/"@ && d.1.mount_point@ != "/mnt/games"@) ==> dropped(kept, d),
        (d.1.mount_point@ == "/var/lib/homepanel"@ && (exists|k: int|
            0 <= k < kept.len() && kept[k].1.total_bytes == d.1.total_bytes
                && kept[k].1.available_bytes == d.1.available_bytes)) ==> dropped(kept, d),
        (forall|k: int| 0 <= k < kept.len() ==> kept[k].0 != d.0 || d.0 is None)
            && d.1.mount_point@ != "/var/lib/homepanel"@ ==> !dropped(kept, d),
        d.0 is None && (forall|k: int|
            0 <= k < kept.len() ==> kept[k].1.total_bytes != d.1.total_bytes
                || kept[k].1.available_bytes != d.1.available_bytes) ==> !dropped(kept, d),
{
}

/// The disk list is sorted with `/` first, then `/mnt/games`, then
/// `/var/lib/homepanel`, then the others.
pub proof fn lemma_disk_order_ranks(
    disks: Seq<(Option<u64>, DiskUsage)>,
    order: Seq<usize>,
    k1: int,
    k2: int,
)
    requires
        stable_order(disk_keys(disks), order),
        0 <= k1 < k2 < order.len(),
    ensures
        ({
            let a = disks[order[k1] as int].1.mount_point@;
            let b = disks[order[k2] as int].1.mount_point@;
            &&& b == "/"@ ==> a == "/"@
            &&& b == "/mnt/games"@ ==> a == "/"@ || a == "/mnt/games"@
            &&& b == "/var/lib/homepanel"@ ==> a == "/"@ || a == "/mnt/games"@ || a
                == "/var/lib/homepanel"@
        }),
{
    reveal_strlit("/");
    reveal_strlit("/mnt/games");
    reveal_strlit("/var/lib/homepanel");
    assert("/"@ != "/mnt/games"@ && "/"@ != "/var/lib/homepanel"@ && "/mnt/games"@
        != "/var/lib/homepanel"@) by {
        assert("/"@.len() == 1 && "/mnt/games"@.len() == 10 && "/var/lib/homepanel"@.len() == 18);
    }
    let keys = disk_keys(disks);
    assert(order[k1] < keys.len() && order[k2] < keys.len());
    assert(order[k1] != order[k2] && before(keys, order[k1] as int, order[k2] as int));
    assert(keys[order[k1] as int] == disk_key(disks[order[k1] as int]));
    assert(keys[order[k2] as int] == disk_key(disks[order[k2] as int]));
}

/// What was kept stays kept.
proof fn lemma_dedupe_keeps_kept(
    items: Seq<(Option<u64>, DiskUsage)>,
    kept: Seq<(Option<u64>, DiskUsage)>,
    x: (Option<u64>, DiskUsage),
)
    requires
        kept.contains(x),
    ensures
        dedupe_from(items, kept).contains(x),
    decreases items.len(),
{
    if items.len() > 0 {
        let next = if dropped(kept, items[0]) {
            kept
        } else {
            kept.push(items[0])
        };
        let k = choose|k: int| 0 <= k < kept.len() && kept[k] == x;
        assert(next[k] == x);
        lemma_dedupe_keeps_kept(items.drop_first(), next, x);
    }
}

/// A disk at `/` or `/mnt/games` among the items is kept.
proof fn lemma_dedupe_keeps_pinned(
    items: Seq<(Option<u64>, DiskUsage)>,
    kept: Seq<(Option<u64>, DiskUsage)>,
    i: int,
)
    requires
        0 <= i < items.len(),
        items[i].1.mount_point@ == "/"@ || items[i].1.mount_point@ == "/mnt/games"@,
    ensures
        dedupe_from(items, kept).contains(items[i]),
    decreases items.len(),
{
    let next = if dropped(kept, items[0]) {
        kept
    } else {
        kept.push(items[0])
    };
    if i == 0 {
        lemma_root_and_games_never_dropped(kept, items[0]);
        assert(next[kept.len() as int] == items[0]);
        lemma_dedupe_keeps_kept(items.drop_first(), next, items[0]);
    } else {
        assert(items.drop_first()[i - 1] == items[i]);
        lemma_dedupe_keeps_pinned(items.drop_first(), next, i - 1);
    }
}

/// Every disk mounted at `/` or `/mnt/games` that `order_disks` is given is
/// in the list it returns, whichever disks share its device.
pub proof fn lemma_root_and_games_listed(
    disks: Seq<(Option<u64>, DiskUsage)>,
    order: Seq<usize>,
    i: int,
)
    requires
        stable_order(disk_keys(disks), order),
        0 <= i < disks.len(),
        disks[i].1.mount_point@ == "/"@ || disks[i].1.mount_point@ == "/mnt/games"@,
    ensures
        dedupe_from(order.map_values(|j: usize| disks[j as int]), Seq::empty()).map_values(
            |d: (Option<u64>, DiskUsage)| d.1,
        ).contains(disks[i].1),
{
    lemma_order_covers(disk_keys(disks), order, i);
    let m = choose|m: int| 0 <= m < order.len() && order[m] == i;
    let items = order.map_values(|j: usize| disks[j as int]);
    assert(items[m] == disks[i]);
    lemma_dedupe_keeps_pinned(items, Seq::empty(), m);
    let out = dedupe_from(items, Seq::empty());
    let k = choose|k: int| 0 <= k < out.len() && out[k] == disks[i];
    assert(out.map_values(|d: (Option<u64>, DiskUsage)| d.1)[k] == disks[i].1);
}

/// The rank of a mount point in the disk list.
fn mount_rank_of(m: &String) -> (r: u8)
    ensures
        r == mount_rank(m@),
{
    if is_lit(m, "/") {
        0
    } else if is_lit(m, "/mnt/games") {
        1
    } else if is_lit(m, "/var/lib/homepanel") {
        2
    } else {
        3
    }
}

/// Whether a disk is dropped given those kept.
fn is_dropped(kept: &Vec<(Option<u64>, DiskUsage)>, d: &(Option<u64>, DiskUsage)) -> (r: bool)
    ensures
        r == dropped(kept@, *d),
{
    let mut same_device = false;
    let mut same_signature = false;
    let mut k: usize = 0;
    while k < kept.len()
        invariant
            k <= kept@.len(),
            same_device == (d.0 is Some && exists|j: int| 0 <= j < k && #[trigger] kept@[j].0 == d.0),
            same_signature == exists|j: int|
                0 <= j < k && #[trigger] kept@[j].1.total_bytes == d.1.total_bytes
                    && kept@[j].1.available_bytes == d.1.available_bytes,
        decreases kept@.len() - k,
    {
        let e = &kept[k];
        let dev_eq = match (e.0, d.0) {
            (Some(a), Some(b)) => a == b,
            (None, None) => true,
            _ => false,
        };
        if d.0.is_some() && dev_eq {
            same_device = true;
        }
        let total_eq = match (e.1.total_bytes, d.1.total_bytes) {
            (Some(a), Some(b)) => a == b,
            (None, None) => true,
            _ => false,
        };
        let avail_eq = match (e.1.available_bytes, d.1.available_bytes) {
            (Some(a), Some(b)) => a == b,
            (None, None) => true,
            _ => false,
        };
        if total_eq && avail_eq {
            same_signature = true;
        }
        k += 1;
    }
    let m = &d.1.mount_point;
    (same_device && !is_lit(m, "/") && !is_lit(m, "/mnt/games")) || (same_signature && is_lit(
        m,
        "/var/lib/homepanel",
    ))
}

/// The disks of the overview: sorted stably by mount point (`/`,
/// `/mnt/games`, `/var/lib/homepanel`, then others by name), then with
/// duplicates dropped as `dropped` says.
pub fn order_disks(disks: Vec<(Option<u64>, DiskUsage)>) -> (out: Vec<DiskUsage>)
    ensures
        exists|order: Seq<usize>|
            stable_order(disk_keys(disks@), order) && out@ == dedupe_from(
                order.map_values(|i: usize| disks@[i as int]),
                Seq::empty(),
            ).map_values(|d: (Option<u64>, DiskUsage)| d.1),
{
    let ghost orig = disks@;
    let mut keys: Vec<(u8, Vec<u8>)> = Vec::new();
    let mut i: usize = 0;
    while i < disks.len()
        invariant
            orig == disks@,
            i <= disks@.len(),
            keys@.len() == i,
            forall|k: int| 0 <= k < i ==> #[trigger] key_views(keys@)[k] == disk_key(orig[k]),
        decreases disks@.len() - i,
    {
        let ms = disks[i].1.mount_point.as_str();
        let bytes = bytes_to_vec(ms.as_bytes());
        let rank: u8 = mount_rank_of(&disks[i].1.mount_point);
        let ghost before = key_views(keys@);
        keys.push((rank, bytes));
        assert(key_views(keys@) =~= before.push((rank, bytes@)));
        assert(key_views(keys@)[i as int] == disk_key(orig[i as int]));
        i += 1;
    }
    assert(key_views(keys@) =~= disk_keys(orig));
    let order = stable_order_of(&keys);
    let sorted = apply_order(disks, &order);
    let ghost sorted_view = sorted@;
    assert(sorted_view =~= order@.map_values(|i: usize| orig[i as int]));
    let total_len: usize = sorted.len();
    let mut rest = sorted;
    let mut kept: Vec<(Option<u64>, DiskUsage)> = Vec::new();
    let mut consumed: usize = 0;
    while rest.len() > 0
        invariant
            consumed + rest@.len() == sorted_view.len(),
            sorted_view.len() == total_len,
            rest@ == sorted_view.subrange(consumed as int, sorted_view.len() as int),
            dedupe_from(rest@, kept@) == dedupe_from(sorted_view, Seq::empty()),
        decreases rest@.len(),
    {
        let ghost r = rest@;
        let d = rest.remove(0);
        assert(rest@ =~= r.drop_first());
        if !is_dropped(&kept, &d) {
            kept.push(d);
        }
        consumed += 1;
        assert(rest@ =~= sorted_view.subrange(consumed as int, sorted_view.len() as int));
    }
    assert(rest@ =~= Seq::<(Option<u64>, DiskUsage)>::empty());
    let ghost final_kept = kept@;
    let mut out: Vec<DiskUsage> = Vec::new();
    let mut kept = kept;
    let mut rev: Vec<DiskUsage> = Vec::new();
    while kept.len() > 0
        invariant
            kept@ == final_kept.subrange(0, kept@.len() as int),
            rev@.len() + kept@.len() == final_kept.len(),
            forall|j: int| 0 <= j < rev@.len() ==> #[trigger] rev@[j] == final_kept[final_kept.len() - 1 - j].1,
        decreases kept@.len(),
    {
        match kept.pop() {
            Some(p) => {
                rev.push(p.1);
            },
            None => {},
        }
        assert(kept@ =~= final_kept.subrange(0, kept@.len() as int));
    }
    let n: usize = rev.len();
    while rev.len() > 0
        invariant
            n == final_kept.len(),
            out@.len() + rev@.len() == n,
            forall|j: int| 0 <= j < rev@.len() ==> #[trigger] rev@[j] == final_kept[n - 1 - j].1,
            forall|j: int| 0 <= j < out@.len() ==> #[trigger] out@[j] == final_kept[j].1,
        decreases rev@.len(),
    {
        let ghost before = rev@;
        match rev.pop() {
            Some(d) => {
                out.push(d);
            },
            None => {},
        }
    }
    assert(out@ =~= final_kept.map_values(|d: (Option<u64>, DiskUsage)| d.1));
    out
}

} // verus!
