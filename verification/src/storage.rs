//! The persisted records and the decisions around them: file paths inside
//! the data directory, the versioned task file, the window position, and the
//! monitored provider instances (ids, legacy migration, add and remove).
//! Reading and writing the files is the caller's part.

use crate::memo::Memo;
use crate::text::{
    chars_of, dec, dec_int, i64_digits, is_prefix, lemma_dec_roundtrip, parse_unsigned,
    parse_unsigned_exec, push_all, push_str, spec_lowercase, starts_with, string_of, u64_digits,
    lowercase,
};
use vstd::prelude::*;

verus! {

// ---------------------------------------------------------------------------
// Paths
// ---------------------------------------------------------------------------

/// `std::path::MAIN_SEPARATOR`: '\\' on Windows, '/' elsewhere.
#[verifier::external_body]
pub(crate) fn main_separator() -> (c: char)
    ensures
        c == '/' || c == '\\',
{
    std::path::MAIN_SEPARATOR
}

/// A path separator for `PathBuf` on a platform whose main separator is
/// `sep` ('/' is one everywhere).
pub open spec fn is_separator(c: char, sep: char) -> bool {
    c == '/' || c == sep
}

/// `PathBuf::from(dir).join(name)` for a relative `name`: a separator goes
/// between them unless `dir` is empty or already ends with one.
pub open spec fn join_path(dir: Seq<char>, name: Seq<char>, sep: char) -> Seq<char> {
    if dir.len() == 0 || is_separator(dir.last(), sep) {
        dir + name
    } else {
        dir.push(sep) + name
    }
}

/// `out` is `name` joined onto `dir` with one of the two separators.
pub open spec fn is_join_of(out: Seq<char>, dir: Seq<char>, name: Seq<char>) -> bool {
    exists|sep: char| #![trigger join_path(dir, name, sep)] (sep == '/' || sep == '\\') && out == join_path(dir, name, sep)
}

/// The data directory, or the relative `MemoPill` one without it.
pub open spec fn dir_or_default(dir: Option<&str>) -> Seq<char> {
    match dir {
        Some(d) => d@,
        None => "MemoPill"@,
    }
}

/// Joins a relative file name onto a directory.
pub fn join(dir: &str, name: &str) -> (out: String)
    ensures
        is_join_of(out@, dir@, name@),
{
    let sep = main_separator();
    let mut v = chars_of(dir);
    let n = v.len();
    if n > 0 && !(v[n - 1] == '/' || v[n - 1] == sep) {
        v.push(sep);
    }
    push_str(&mut v, name);
    assert(v@ == join_path(dir@, name@, sep));
    string_of(v.as_slice())
}

/// Full path of a data file by name inside the data directory, or under a
/// relative `MemoPill` directory when there is none.
pub fn data_path(dir: Option<&str>, name: &str) -> (out: String)
    ensures
        is_join_of(out@, dir_or_default(dir), name@),
{
    match dir {
        Some(d) => join(d, name),
        None => join("MemoPill", name),
    }
}

/// `memos.json` in the data directory.
pub fn data_file(dir: Option<&str>) -> (out: String)
    ensures
        is_join_of(out@, dir_or_default(dir), "memos.json"@),
{
    data_path(dir, "memos.json")
}

/// `settings.json` in the data directory.
pub fn settings_file(dir: Option<&str>) -> (out: String)
    ensures
        is_join_of(out@, dir_or_default(dir), "settings.json"@),
{
    data_path(dir, "settings.json")
}

/// `providers.json` in the data directory.
pub fn providers_file(dir: Option<&str>) -> (out: String)
    ensures
        is_join_of(out@, dir_or_default(dir), "providers.json"@),
{
    data_path(dir, "providers.json")
}

/// Path of a named file in the data directory; none without a directory.
pub fn named_path(dir: Option<&str>, filename: &str) -> (out: Option<String>)
    ensures
        dir is None ==> out is None,
        dir matches Some(d) ==> (out matches Some(p) && is_join_of(p@, d@, filename@)),
{
    match dir {
        Some(d) => Some(join(d, filename)),
        None => None,
    }
}

// ---------------------------------------------------------------------------
// The task file
// ---------------------------------------------------------------------------

/// The schema version written by this program. Version 2 added the task
/// attributes; older files load with them unset.
pub const CURRENT_VERSION: u32 = 2;

/// On-disk schema of `memos.json`.
pub struct MemoFile {
    pub version: u32,
    pub memos: Vec<Memo>,
}

/// The record `memos.json` is written with: the current version and a
/// copy of the tasks. Serialising and the atomic replace are the caller's.
pub fn save_memos(memos: &[Memo]) -> (f: MemoFile)
    ensures
        f.version == CURRENT_VERSION,
        f.memos@ == memos@,
{
    let mut copy: Vec<Memo> = Vec::new();
    let mut i: usize = 0;
    while i < memos.len()
        invariant
            i <= memos.len(),
            copy@ == memos@.take(i as int),
        decreases memos.len() - i,
    {
        copy.push(memos[i].duplicate());
        i += 1;
        assert(copy@ =~= memos@.take(i as int));
    }
    assert(memos@.take(memos.len() as int) =~= memos@);
    MemoFile { version: CURRENT_VERSION, memos: copy }
}

/// What a read of `memos.json` yields.
pub enum MemoLoad {
    /// The tasks, from the envelope or the legacy bare array.
    Loaded(Vec<Memo>),
    /// Neither format parsed: the file must be backed up, never overwritten
    /// silently, and the program starts empty.
    Corrupt,
}

pub open spec fn load_memos_spec(envelope: Option<MemoFile>, legacy: Option<Vec<Memo>>) -> MemoLoad {
    match envelope {
        Some(f) => MemoLoad::Loaded(f.memos),
        None => match legacy {
            Some(l) => MemoLoad::Loaded(l),
            None => MemoLoad::Corrupt,
        },
    }
}

/// What a read of `memos.json` gives, from its two parses: the envelope
/// format first, then the legacy bare-array format; corrupt when neither
/// parsed. A missing or unreadable file is the caller's (no tasks).
pub fn load_memos(envelope: Option<MemoFile>, legacy: Option<Vec<Memo>>) -> (r: MemoLoad)
    ensures
        r == load_memos_spec(envelope, legacy),
{
    match envelope {
        Some(f) => MemoLoad::Loaded(f.memos),
        None => match legacy {
            Some(l) => MemoLoad::Loaded(l),
            None => MemoLoad::Corrupt,
        },
    }
}

/// File name the corrupt task file is backed up to at `now`:
/// `memos.corrupt-<now>.json`.
pub fn corrupt_backup_name(now: i64) -> (name: String)
    ensures
        name@ == "memos.corrupt-"@ + dec_int(now as int) + ".json"@,
{
    let mut v: Vec<char> = Vec::new();
    push_str(&mut v, "memos.corrupt-");
    let d = i64_digits(now);
    push_all(&mut v, d.as_slice());
    push_str(&mut v, ".json");
    string_of(v.as_slice())
}

// ---------------------------------------------------------------------------
// Window position
// ---------------------------------------------------------------------------

/// On-disk schema of `settings.json`.
pub struct SettingsFile {
    pub window_x: i32,
    pub window_y: i32,
}

/// The record `settings.json` is written with.
pub fn save_window_pos(x: i32, y: i32) -> (s: SettingsFile)
    ensures
        s.window_x == x,
        s.window_y == y,
{
    SettingsFile { window_x: x, window_y: y }
}

/// The position a read of `settings.json` gives; none when the file was
/// missing or did not parse.
pub fn load_window_pos(s: Option<SettingsFile>) -> (p: Option<(i32, i32)>)
    ensures
        p == match s {
            Some(f) => Some((f.window_x, f.window_y)),
            None => None,
        },
{
    match s {
        Some(f) => Some((f.window_x, f.window_y)),
        None => None,
    }
}

// ---------------------------------------------------------------------------
// Monitored provider instances
// ---------------------------------------------------------------------------

/// One monitored provider instance. Several entries may share a provider
/// (e.g. two GLM accounts); they differ by `id`.
pub struct MonitorEntry {
    /// Stable instance id, e.g. "glm-mon-1". Unique within the file.
    pub id: String,
    /// Provider type name, e.g. "GLM".
    pub provider: String,
    /// The API key for this instance.
    pub key: String,
}

impl MonitorEntry {
    /// An identical copy.
    pub fn duplicate(&self) -> (r: MonitorEntry)
        ensures
            r == *self,
    {
        MonitorEntry { id: self.id.clone(), provider: self.provider.clone(), key: self.key.clone() }
    }
}

/// `"<lowercase provider>-mon-"`, the id prefix of a provider's instances.
pub open spec fn id_prefix(provider: Seq<char>) -> Seq<char> {
    spec_lowercase(provider) + "-mon-"@
}

/// The instance number an id carries after `prefix`, if it is one.
pub open spec fn instance_number(id: Seq<char>, prefix: Seq<char>) -> Option<nat> {
    if is_prefix(prefix, id) {
        parse_unsigned(id.skip(prefix.len() as int), u32::MAX as nat)
    } else {
        None
    }
}

/// The largest instance number among `entries` under `prefix`, or 0.
pub open spec fn max_instance(entries: Seq<MonitorEntry>, prefix: Seq<char>) -> nat
    decreases entries.len(),
{
    if entries.len() == 0 {
        0
    } else {
        let rest = max_instance(entries.drop_last(), prefix);
        match instance_number(entries.last().id@, prefix) {
            Some(n) => if n > rest { n } else { rest },
            None => rest,
        }
    }
}

proof fn lemma_max_instance(entries: Seq<MonitorEntry>, prefix: Seq<char>)
    ensures
        max_instance(entries, prefix) <= u32::MAX,
        forall|i: int| 0 <= i < entries.len() ==> (instance_number(#[trigger] entries[i].id@, prefix) matches Some(n) ==> n <= max_instance(entries, prefix)),
    decreases entries.len(),
{
    if entries.len() > 0 {
        lemma_max_instance(entries.drop_last(), prefix);
        assert forall|i: int| 0 <= i < entries.len() implies (instance_number(#[trigger] entries[i].id@, prefix) matches Some(n) ==> n <= max_instance(entries, prefix)) by {
            if i < entries.len() - 1 {
                assert(entries[i] == entries.drop_last()[i]);
            }
        }
    }
}

/// The id the next instance under `prefix` gets.
pub open spec fn next_id_spec(entries: Seq<MonitorEntry>, prefix: Seq<char>) -> Seq<char> {
    prefix + dec(max_instance(entries, prefix) + 1)
}

fn instance_number_exec(id: &String, prefix: &Vec<char>) -> (r: Option<u32>)
    ensures
        r matches Some(n) ==> instance_number(id@, prefix@) == Some(n as nat),
        r is None ==> instance_number(id@, prefix@) is None,
{
    let cs = chars_of(id.as_str());
    if !starts_with(cs.as_slice(), prefix.as_slice()) {
        return None;
    }
    let mut rest: Vec<char> = Vec::new();
    let mut i: usize = prefix.len();
    while i < cs.len()
        invariant
            prefix.len() <= i <= cs.len(),
            rest@ == cs@.subrange(prefix.len() as int, i as int),
        decreases cs.len() - i,
    {
        rest.push(cs[i]);
        i += 1;
        assert(rest@ =~= cs@.subrange(prefix.len() as int, i as int));
    }
    assert(rest@ =~= cs@.skip(prefix.len() as int));
    match parse_unsigned_exec(rest.as_slice(), 4294967295u64) {
        Some(n) => Some(n as u32),
        None => None,
    }
}

/// Largest instance number under `prefix` in `existing`, or 0.
fn max_instance_exec(existing: &Vec<MonitorEntry>, prefix: &Vec<char>) -> (m: u32)
    ensures
        m as nat == max_instance(existing@, prefix@),
{
    let mut best: u32 = 0;
    let mut i: usize = 0;
    while i < existing.len()
        invariant
            i <= existing.len(),
            best as nat == max_instance(existing@.take(i as int), prefix@),
        decreases existing.len() - i,
    {
        assert(existing@.take(i + 1).drop_last() == existing@.take(i as int));
        assert(existing@.take(i + 1).last() == existing@[i as int]);
        match instance_number_exec(&existing[i].id, prefix) {
            Some(n) => {
                if n > best {
                    best = n;
                }
            },
            None => {},
        }
        i += 1;
    }
    assert(existing@.take(existing.len() as int) == existing@);
    best
}

/// The next instance id for `provider`, e.g. "glm-mon-2" when a
/// "glm-mon-1" already exists: lowercase, 1-indexed, one past the largest
/// instance number in use.
fn next_monitor_id(provider: &str, existing: &Vec<MonitorEntry>) -> (id: String)
    requires
        max_instance(existing@, id_prefix(provider@)) < u32::MAX,
    ensures
        id@ == next_id_spec(existing@, id_prefix(provider@)),
{
    let lower = lowercase(provider);
    let mut prefix = chars_of(lower.as_str());
    push_str(&mut prefix, "-mon-");
    let best = max_instance_exec(existing, &prefix);
    let digits = u64_digits((best as u64) + 1);
    let mut out = prefix.clone();
    push_all(&mut out, digits.as_slice());
    string_of(out.as_slice())
}

/// An instance as (id, provider, key).
pub open spec fn entry_view(e: MonitorEntry) -> (Seq<char>, Seq<char>, Seq<char>) {
    (e.id@, e.provider@, e.key@)
}

pub open spec fn entries_view(m: Seq<MonitorEntry>) -> Seq<(Seq<char>, Seq<char>, Seq<char>)> {
    m.map_values(|e: MonitorEntry| entry_view(e))
}

pub open spec fn legacy_view(l: Seq<(String, String)>) -> Seq<(Seq<char>, Seq<char>)> {
    l.map_values(|p: (String, String)| (p.0@, p.1@))
}

/// The legacy `{provider: key}` entries as instances `<provider>-mon-1`.
pub open spec fn migrate(legacy: Seq<(Seq<char>, Seq<char>)>) -> Seq<(Seq<char>, Seq<char>, Seq<char>)> {
    legacy.map_values(|p: (Seq<char>, Seq<char>)| (spec_lowercase(p.0) + "-mon-1"@, p.0, p.1))
}

/// What a provider file with list `m` and legacy map `legacy` reads as, and
/// whether it must be written back: the list when it has entries, else the
/// migrated legacy map (written back when there was one).
pub open spec fn load_monitors_spec(
    m: Seq<(Seq<char>, Seq<char>, Seq<char>)>,
    legacy: Seq<(Seq<char>, Seq<char>)>,
) -> (Seq<(Seq<char>, Seq<char>, Seq<char>)>, bool) {
    if m.len() > 0 {
        (m, false)
    } else {
        (migrate(legacy), legacy.len() > 0)
    }
}

/// The monitors a provider file yields. A file already in the list schema
/// is used as is; a legacy `{provider: key}` file is migrated to one
/// `<provider>-mon-1` instance per entry, which must then be written back.
/// Returns the monitors and whether to write them back.
pub fn load_monitors(monitors: Vec<MonitorEntry>, legacy: Vec<(String, String)>) -> (r: (Vec<MonitorEntry>, bool))
    ensures
        (entries_view(r.0@), r.1) == load_monitors_spec(entries_view(monitors@), legacy_view(legacy@)),
        monitors@.len() > 0 ==> r.0 == monitors && !r.1,
        monitors@.len() == 0 && legacy@.len() == 0 ==> r.0@.len() == 0 && !r.1,
        monitors@.len() == 0 && legacy@.len() > 0 ==> {
            &&& r.1
            &&& r.0@.len() == legacy@.len()
            &&& forall|i: int| 0 <= i < legacy@.len() ==> {
                &&& (#[trigger] r.0@[i]).id@ == spec_lowercase(legacy@[i].0@) + "-mon-1"@
                &&& r.0@[i].provider == legacy@[i].0
                &&& r.0@[i].key == legacy@[i].1
            }
        },
{
    if monitors.len() > 0 {
        return (monitors, false);
    }
    let mut migrated: Vec<MonitorEntry> = Vec::new();
    let mut i: usize = 0;
    while i < legacy.len()
        invariant
            i <= legacy.len(),
            migrated@.len() == i,
            forall|k: int| 0 <= k < i ==> {
                &&& (#[trigger] migrated@[k]).id@ == spec_lowercase(legacy@[k].0@) + "-mon-1"@
                &&& migrated@[k].provider == legacy@[k].0
                &&& migrated@[k].key == legacy@[k].1
            },
        decreases legacy.len() - i,
    {
        let lower = lowercase(legacy[i].0.as_str());
        let mut id = chars_of(lower.as_str());
        push_str(&mut id, "-mon-1");
        migrated.push(MonitorEntry {
            id: string_of(id.as_slice()),
            provider: legacy[i].0.clone(),
            key: legacy[i].1.clone(),
        });
        i += 1;
    }
    proof {
        reveal_strlit("-mon-1");
        assert(entries_view(migrated@) =~= migrate(legacy_view(legacy@)));
    }
    let write_back = migrated.len() > 0;
    (migrated, write_back)
}

/// The instance-number bound that adding another instance of `provider`
/// needs: its number must stay within `u32`.
pub open spec fn can_add(existing: Seq<MonitorEntry>, provider: Seq<char>) -> bool {
    max_instance(existing, id_prefix(provider)) < u32::MAX
}

/// Appends a new instance for `provider` with `key` and returns its id.
/// Always appends, never dedupes: a second GLM is intentional. `None` (and
/// no change) when the provider's instance numbers are exhausted.
pub fn save_monitor(monitors: &mut Vec<MonitorEntry>, provider: &str, key: &str) -> (id: Option<String>)
    ensures
        !can_add(old(monitors)@, provider@) ==> id is None && final(monitors)@ == old(monitors)@,
        can_add(old(monitors)@, provider@) ==> {
            &&& id matches Some(i) && i@ == next_id_spec(old(monitors)@, id_prefix(provider@))
            &&& final(monitors)@.len() == old(monitors)@.len() + 1
            &&& final(monitors)@.drop_last() == old(monitors)@
            &&& final(monitors)@.last().id@ == next_id_spec(old(monitors)@, id_prefix(provider@))
            &&& final(monitors)@.last().provider@ == provider@
            &&& final(monitors)@.last().key@ == key@
        },
{
    let lower = lowercase(provider);
    let mut prefix = chars_of(lower.as_str());
    push_str(&mut prefix, "-mon-");
    assert(prefix@ == id_prefix(provider@));
    let best = max_instance_exec(monitors, &prefix);
    if best == 4294967295u32 {
        return None;
    }
    let id = next_monitor_id(provider, monitors);
    let ghost before = monitors@;
    monitors.push(MonitorEntry { id: id.clone(), provider: provider.to_owned(), key: key.to_owned() });
    assert(monitors@.drop_last() =~= before);
    Some(id)
}

/// The monitors without the instance `id`, and whether any was removed (the
/// file is rewritten only then).
pub fn remove_monitor(monitors: Vec<MonitorEntry>, id: &str) -> (r: (Vec<MonitorEntry>, bool))
    ensures
        r.0@ == without_monitor(monitors@, id@),
        r.1 == (r.0@.len() != monitors@.len()),
{
    let target = id.to_owned();
    let mut kept: Vec<MonitorEntry> = Vec::new();
    let mut i: usize = 0;
    while i < monitors.len()
        invariant
            i <= monitors.len(),
            target@ == id@,
            kept@ == without_monitor(monitors@.take(i as int), id@),
        decreases monitors.len() - i,
    {
        assert(monitors@.take(i + 1).drop_last() == monitors@.take(i as int));
        assert(monitors@.take(i + 1).last() == monitors@[i as int]);
        if !(monitors[i].id == target) {
            kept.push(monitors[i].duplicate());
        }
        i += 1;
    }
    assert(monitors@.take(monitors.len() as int) == monitors@);
    let changed = kept.len() != monitors.len();
    (kept, changed)
}

/// The record `providers.json` is written with: only the list schema, so
/// a legacy `api_keys` map is never written back.
pub struct ProvidersOut {
    pub monitors: Vec<MonitorEntry>,
}

/// The record that replaces `providers.json`: a copy of the monitors.
pub fn write_providers_file(monitors: &[MonitorEntry]) -> (f: ProvidersOut)
    ensures
        f.monitors@ == monitors@,
{
    let mut copy: Vec<MonitorEntry> = Vec::new();
    let mut i: usize = 0;
    while i < monitors.len()
        invariant
            i <= monitors.len(),
            copy@ == monitors@.take(i as int),
        decreases monitors.len() - i,
    {
        copy.push(monitors[i].duplicate());
        i += 1;
        assert(copy@ =~= monitors@.take(i as int));
    }
    assert(monitors@.take(monitors.len() as int) =~= monitors@);
    ProvidersOut { monitors: copy }
}

/// `monitors` without the entries whose id is `id`, order kept.
pub open spec fn without_monitor(monitors: Seq<MonitorEntry>, id: Seq<char>) -> Seq<MonitorEntry>
    decreases monitors.len(),
{
    if monitors.len() == 0 {
        monitors
    } else {
        let rest = without_monitor(monitors.drop_last(), id);
        if monitors.last().id@ != id {
            rest.push(monitors.last())
        } else {
            rest
        }
    }
}

// ---------------------------------------------------------------------------
// Laws
// ---------------------------------------------------------------------------

/// A newly assigned instance id is unique: no existing entry has it.
pub proof fn law_new_monitor_id_is_fresh(existing: Seq<MonitorEntry>, provider: Seq<char>)
    requires
        can_add(existing, provider),
    ensures
        forall|i: int| 0 <= i < existing.len() ==> (#[trigger] existing[i]).id@ != next_id_spec(existing, id_prefix(provider)),
{
    let prefix = id_prefix(provider);
    let m = max_instance(existing, prefix);
    let fresh = next_id_spec(existing, prefix);
    lemma_max_instance(existing, prefix);
    assert forall|i: int| 0 <= i < existing.len() implies (#[trigger] existing[i]).id@ != fresh by {
        if existing[i].id@ == fresh {
            assert(fresh.take(prefix.len() as int) =~= prefix);
            assert(fresh.skip(prefix.len() as int) =~= dec(m + 1));
            lemma_dec_roundtrip(m + 1, u32::MAX as nat);
            assert(instance_number(existing[i].id@, prefix) == Some((m + 1) as nat));
        }
    }
}

/// Removing an instance leaves no entry with its id, and keeps every other
/// entry.
pub proof fn law_remove_monitor(monitors: Seq<MonitorEntry>, id: Seq<char>)
    ensures
        forall|i: int| 0 <= i < without_monitor(monitors, id).len() ==> (#[trigger] without_monitor(monitors, id)[i]).id@ != id,
        forall|i: int| 0 <= i < monitors.len() && (#[trigger] monitors[i]).id@ != id ==> without_monitor(monitors, id).contains(monitors[i]),
    decreases monitors.len(),
{
    if monitors.len() > 0 {
        let t = monitors.drop_last();
        law_remove_monitor(t, id);
        let r = without_monitor(monitors, id);
        assert forall|i: int| 0 <= i < monitors.len() && (#[trigger] monitors[i]).id@ != id implies r.contains(monitors[i]) by {
            if i < monitors.len() - 1 {
                assert(monitors[i] == t[i]);
                let k = choose|k: int| 0 <= k < without_monitor(t, id).len() && without_monitor(t, id)[k] == t[i];
                assert(r[k] == t[i]);
            } else {
                assert(r[r.len() - 1] == monitors[i]);
            }
        }
    }
}

/// A provider file in the list schema reads back as written (see
/// `write_providers_file`), and is not written again.
pub proof fn law_written_monitors_load_back(m: Seq<MonitorEntry>, legacy: Seq<(Seq<char>, Seq<char>)>)
    requires
        m.len() > 0,
    ensures
        load_monitors_spec(entries_view(m), legacy) == (entries_view(m), false),
{
}

/// A migrated legacy file, once written back, reads as the migrated list
/// and is not migrated or written a second time.
pub proof fn law_migration_is_stable(legacy: Seq<(Seq<char>, Seq<char>)>, later: Seq<(Seq<char>, Seq<char>)>)
    requires
        legacy.len() > 0,
    ensures
        load_monitors_spec(Seq::empty(), legacy).1,
        load_monitors_spec(load_monitors_spec(Seq::empty(), legacy).0, later) == (
            load_monitors_spec(Seq::empty(), legacy).0,
            false,
        ),
{
    assert(migrate(legacy).len() == legacy.len());
}

/// Reading back a task file in the current format gives its tasks,
/// whatever the legacy parse gave.
pub proof fn law_saved_memos_load_back(f: MemoFile, legacy: Option<Vec<Memo>>)
    ensures
        load_memos_spec(Some(f), legacy) == MemoLoad::Loaded(f.memos),
{
}

} // verus!
