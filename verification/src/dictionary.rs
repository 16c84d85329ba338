//! The store engine: a string-keyed map of entries with lazy per-entry
//! expiration. Expiration is checked only by `get` and `exists`; expired
//! entries stay in the store until `del`, `clear` or an overwrite removes
//! them. The store is modelled as a `Map<Seq<char>, EntryView>`.
//!
//! Instants and durations are nanoseconds since the Unix epoch. The
//! operations that consult the clock come in two forms: one that takes the
//! instant `now` as an argument, with an exact contract, and one that asks
//! the wall clock itself and is therefore specified for some unknown `now`.

use vstd::prelude::*;
use crate::command::{Command, CommandResult, CommandResultView, CommandView};
use crate::errors::DictionaryError;
use crate::numbers::{i64_to_string, parse_i64, spec_i64_string, spec_parse_i64};
use crate::text::str_eq;
use crate::time::now_nanos;

verus! {

/// One stored value and its optional absolute expiration instant, in
/// nanoseconds since the Unix epoch.
#[derive(Debug)]
pub struct Entry {
    pub value: String,
    pub expiration: Option<u64>,
}

/// The mathematical shape of an `Entry`.
pub struct EntryView {
    pub value: Seq<char>,
    pub expiration: Option<u64>,
}

impl View for Entry {
    type V = EntryView;

    open spec fn view(&self) -> EntryView {
        EntryView { value: self.value@, expiration: self.expiration }
    }
}

/// One keyed entry as the store holds it.
#[derive(Debug)]
pub(crate) struct Slot {
    pub(crate) key: String,
    pub(crate) entry: Entry,
}

/// The mathematical shape of a `Slot`.
pub struct SlotView {
    pub key: Seq<char>,
    pub entry: EntryView,
}

/// No key occurs twice.
pub open spec fn keys_unique(s: Seq<SlotView>) -> bool {
    forall|i: int, j: int| 0 <= i < j < s.len() ==> (#[trigger] s[i]).key != (#[trigger] s[j]).key
}

/// The map that a sequence of keyed entries denotes; later entries win.
pub open spec fn slots_map(s: Seq<SlotView>) -> Map<Seq<char>, EntryView>
    decreases s.len(),
{
    if s.len() == 0 {
        Map::empty()
    } else {
        slots_map(s.drop_last()).insert(s.last().key, s.last().entry)
    }
}

/// The store: a mapping from key to entry, keys unique.
#[derive(Debug)]
pub struct Dictionary {
    pub(crate) entries: Vec<Slot>,
}

impl View for Dictionary {
    type V = Map<Seq<char>, EntryView>;

    open spec fn view(&self) -> Map<Seq<char>, EntryView> {
        slots_map(self.slots())
    }
}

/// Saturating addition of two instants/durations in nanoseconds.
pub open spec fn sat_add(a: u64, b: u64) -> u64 {
    if a + b <= u64::MAX as int {
        (a + b) as u64
    } else {
        u64::MAX
    }
}

fn sat_add_exec(a: u64, b: u64) -> (r: u64)
    ensures
        r == sat_add(a, b),
{
    if b <= u64::MAX - a {
        a + b
    } else {
        u64::MAX
    }
}

/// The successor in 64-bit two's-complement arithmetic.
pub open spec fn wrap_inc(v: int) -> int {
    if v == i64::MAX as int {
        i64::MIN as int
    } else {
        v + 1
    }
}

/// The predecessor in 64-bit two's-complement arithmetic.
pub open spec fn wrap_dec(v: int) -> int {
    if v == i64::MIN as int {
        i64::MAX as int
    } else {
        v - 1
    }
}

/// What `get` returns at instant `now`: the value if the key is present
/// and not yet expired, `DoesNotExist` if absent, `IsExpired` if present
/// with `expiration <= now`.
pub open spec fn spec_get(m: Map<Seq<char>, EntryView>, k: Seq<char>, now: u64) -> Result<
    Seq<char>,
    DictionaryError,
> {
    if !m.contains_key(k) {
        Err(DictionaryError::DoesNotExist)
    } else {
        match m[k].expiration {
            Some(exp) => if exp <= now {
                Err(DictionaryError::IsExpired)
            } else {
                Ok(m[k].value)
            },
            None => Ok(m[k].value),
        }
    }
}

/// What `exists` returns at instant `now`: present and not expired.
pub open spec fn spec_exists(m: Map<Seq<char>, EntryView>, k: Seq<char>, now: u64) -> bool {
    if !m.contains_key(k) {
        false
    } else {
        match m[k].expiration {
            Some(exp) => now < exp,
            None => true,
        }
    }
}

/// The store and result after `incr` at instant `now`: whatever `get`
/// fails with; `InvalidOperationType` (store untouched) if the value does
/// not parse as a signed 64-bit integer; otherwise the entry is replaced
/// by the incremented value with no expiration.
pub open spec fn spec_incr(m: Map<Seq<char>, EntryView>, k: Seq<char>, now: u64) -> (
    Map<Seq<char>, EntryView>,
    Result<(), DictionaryError>,
) {
    match spec_get(m, k, now) {
        Err(e) => (m, Err(e)),
        Ok(v) => match spec_parse_i64(v) {
            None => (m, Err(DictionaryError::InvalidOperationType)),
            Some(x) => (
                m.insert(k, EntryView { value: spec_i64_string(wrap_inc(x)), expiration: None }),
                Ok(()),
            ),
        },
    }
}

/// The store and result after `decr` at instant `now`; see `spec_incr`.
pub open spec fn spec_decr(m: Map<Seq<char>, EntryView>, k: Seq<char>, now: u64) -> (
    Map<Seq<char>, EntryView>,
    Result<(), DictionaryError>,
) {
    match spec_get(m, k, now) {
        Err(e) => (m, Err(e)),
        Ok(v) => match spec_parse_i64(v) {
            None => (m, Err(DictionaryError::InvalidOperationType)),
            Some(x) => (
                m.insert(k, EntryView { value: spec_i64_string(wrap_dec(x)), expiration: None }),
                Ok(()),
            ),
        },
    }
}

/// The store and result of running one command at instant `now`. `Save`
/// leaves the store untouched and reports success: writing the snapshot
/// out is the embedding program's detached task. `Load` is not handled
/// here (reading the snapshot is the embedding program's task, which then
/// calls the codec); the `Load` arm below is never relied upon, since
/// every function specified by `spec_run` excludes `Load` commands.
pub open spec fn spec_run(m: Map<Seq<char>, EntryView>, c: CommandView, now: u64) -> (
    Map<Seq<char>, EntryView>,
    Result<CommandResultView, DictionaryError>,
) {
    match c {
        CommandView::Put(k, v) => (
            m.insert(k, EntryView { value: v, expiration: None }),
            Ok(CommandResultView::Put),
        ),
        CommandView::Get(k) => (
            m,
            match spec_get(m, k, now) {
                Ok(v) => Ok(CommandResultView::Get(v)),
                Err(e) => Err(e),
            },
        ),
        CommandView::Del(k) => if m.contains_key(k) {
            (m.remove(k), Ok(CommandResultView::Del))
        } else {
            (m, Err(DictionaryError::DoesNotExist))
        },
        CommandView::Exists(k) => (m, Ok(CommandResultView::Exists(spec_exists(m, k, now)))),
        CommandView::Expire(k, d) => if m.contains_key(k) {
            (
                m.insert(k, EntryView { value: m[k].value, expiration: Some(sat_add(now, d)) }),
                Ok(CommandResultView::Expire),
            )
        } else {
            (m, Err(DictionaryError::DoesNotExist))
        },
        CommandView::Incr(k) => {
            let (m2, r) = spec_incr(m, k, now);
            (
                m2,
                match r {
                    Ok(_) => Ok(CommandResultView::Incr),
                    Err(e) => Err(e),
                },
            )
        },
        CommandView::Decr(k) => {
            let (m2, r) = spec_decr(m, k, now);
            (
                m2,
                match r {
                    Ok(_) => Ok(CommandResultView::Decr),
                    Err(e) => Err(e),
                },
            )
        },
        CommandView::Clear => (Map::empty(), Ok(CommandResultView::Clear)),
        CommandView::Save => (m, Ok(CommandResultView::Save)),
        CommandView::Load => (m, Ok(CommandResultView::Load)),
    }
}

/// The view of a `Result<CommandResult, DictionaryError>`.
pub open spec fn result_view(r: Result<CommandResult, DictionaryError>) -> Result<
    CommandResultView,
    DictionaryError,
> {
    match r {
        Ok(c) => Ok(c@),
        Err(e) => Err(e),
    }
}

pub proof fn lemma_slots_map_index(s: Seq<SlotView>, i: int)
    requires
        keys_unique(s),
        0 <= i < s.len(),
    ensures
        slots_map(s).contains_key(s[i].key),
        slots_map(s)[s[i].key] == s[i].entry,
    decreases s.len(),
{
    if i == s.len() - 1 {
    } else {
        assert(keys_unique(s.drop_last()));
        lemma_slots_map_index(s.drop_last(), i);
        assert(s.drop_last()[i] == s[i]);
        assert(s.last().key != s[i].key);
    }
}

pub proof fn lemma_slots_map_absent(s: Seq<SlotView>, k: Seq<char>)
    requires
        forall|j: int| 0 <= j < s.len() ==> (#[trigger] s[j]).key != k,
    ensures
        !slots_map(s).contains_key(k),
    decreases s.len(),
{
    if s.len() > 0 {
        lemma_slots_map_absent(s.drop_last(), k);
    }
}

pub proof fn lemma_slots_map_update(s: Seq<SlotView>, i: int, sl: SlotView)
    requires
        keys_unique(s),
        0 <= i < s.len(),
        sl.key == s[i].key,
    ensures
        slots_map(s.update(i, sl)) == slots_map(s).insert(sl.key, sl.entry),
    decreases s.len(),
{
    if i == s.len() - 1 {
        assert(s.update(i, sl).drop_last() =~= s.drop_last());
        assert(s.update(i, sl).last() == sl);
        assert(slots_map(s.update(i, sl)) =~= slots_map(s).insert(sl.key, sl.entry));
    } else {
        assert(keys_unique(s.drop_last()));
        assert(s.drop_last()[i] == s[i]);
        lemma_slots_map_update(s.drop_last(), i, sl);
        assert(s.update(i, sl).drop_last() =~= s.drop_last().update(i, sl));
        assert(s.update(i, sl).last() == s.last());
        assert(s.last().key != sl.key);
        assert(slots_map(s.update(i, sl)) =~= slots_map(s).insert(sl.key, sl.entry));
    }
}

pub proof fn lemma_slots_map_remove(s: Seq<SlotView>, i: int)
    requires
        keys_unique(s),
        0 <= i < s.len(),
    ensures
        slots_map(s.remove(i)) == slots_map(s).remove(s[i].key),
    decreases s.len(),
{
    if i == s.len() - 1 {
        assert(s.remove(i) =~= s.drop_last());
        assert(forall|j: int|
            0 <= j < s.drop_last().len() ==> (#[trigger] s.drop_last()[j]).key != s[i].key);
        lemma_slots_map_absent(s.drop_last(), s[i].key);
        assert(slots_map(s.remove(i)) =~= slots_map(s).remove(s[i].key));
    } else {
        assert(keys_unique(s.drop_last()));
        assert(s.drop_last()[i] == s[i]);
        lemma_slots_map_remove(s.drop_last(), i);
        assert(s.remove(i).drop_last() =~= s.drop_last().remove(i));
        assert(s.remove(i).last() == s.last());
        assert(s.last().key != s[i].key);
        assert(slots_map(s.remove(i)) =~= slots_map(s).remove(s[i].key));
    }
}

impl Dictionary {
    /// The store's entries in insertion order; the snapshot codec renders
    /// them in this order.
    pub closed spec fn slots(self) -> Seq<SlotView> {
        self.entries@.map_values(|s: Slot| SlotView { key: s.key@, entry: s.entry@ })
    }

    /// Well-formedness: no key occurs twice.
    pub open spec fn wf(self) -> bool {
        keys_unique(self.slots())
    }

    /// How `slots` reads off the backing vector, for the sibling modules
    /// that walk it.
    pub(crate) proof fn lemma_slots_entries(&self)
        ensures
            self.slots().len() == self.entries@.len(),
            forall|i: int|
                0 <= i < self.entries@.len() ==> self.slots()[i] == (SlotView {
                    key: (#[trigger] self.entries@[i]).key@,
                    entry: self.entries@[i].entry@,
                }),
    {
    }

    pub fn new() -> (d: Dictionary)
        ensures
            d.wf(),
            d@ == Map::<Seq<char>, EntryView>::empty(),
            d.slots() == Seq::<SlotView>::empty(),
    {
        let d = Dictionary { entries: Vec::new() };
        proof {
            assert(d.slots() =~= Seq::<SlotView>::empty());
        }
        d
    }

    fn find_index(&self, key: &str) -> (r: Option<usize>)
        ensures
            match r {
                Some(i) => i < self.slots().len() && self.slots()[i as int].key == key@,
                None => forall|j: int|
                    0 <= j < self.slots().len() ==> (#[trigger] self.slots()[j]).key != key@,
            },
    {
        let mut i: usize = 0;
        let n = self.entries.len();
        while i < n
            invariant
                n == self.entries@.len(),
                i <= n,
                self.slots().len() == n,
                forall|j: int| 0 <= j < i ==> (#[trigger] self.slots()[j]).key != key@,
            decreases n - i,
        {
            proof {
                assert(self.slots()[i as int].key == self.entries@[i as int].key@);
            }
            if str_eq(self.entries[i].key.as_str(), key) {
                return Some(i);
            }
            i = i + 1;
        }
        None
    }

    /// Unconditional insert or overwrite; never fails.
    pub fn set(&mut self, key: String, value: Entry)
        requires
            old(self).wf(),
        ensures
            final(self).wf(),
            final(self)@ == old(self)@.insert(key@, value@),
    {
        let ghost s0 = self.slots();
        let ghost k = key@;
        let ghost ev = value@;
        match self.find_index(key.as_str()) {
            Some(i) => {
                let slot = Slot { key, entry: value };
                self.entries[i] = slot;
                proof {
                    let sl = SlotView { key: k, entry: ev };
                    assert(self.slots() =~= s0.update(i as int, sl));
                    lemma_slots_map_update(s0, i as int, sl);
                    assert(keys_unique(self.slots()));
                }
            },
            None => {
                self.entries.push(Slot { key, entry: value });
                proof {
                    let sl = SlotView { key: k, entry: ev };
                    assert(self.slots() =~= s0.push(sl));
                    assert(self.slots().drop_last() =~= s0);
                    assert(keys_unique(self.slots()));
                }
            },
        }
    }

    /// Reads the entry for `key` at instant `now`.
    pub fn get_at(&self, key: &str, now: u64) -> (r: Result<String, DictionaryError>)
        requires
            self.wf(),
        ensures
            match r {
                Ok(v) => spec_get(self@, key@, now) == Ok::<Seq<char>, DictionaryError>(v@),
                Err(e) => spec_get(self@, key@, now) == Err::<Seq<char>, DictionaryError>(e),
            },
    {
        match self.find_index(key) {
            None => {
                proof {
                    lemma_slots_map_absent(self.slots(), key@);
                }
                Err(DictionaryError::DoesNotExist)
            },
            Some(i) => {
                proof {
                    lemma_slots_map_index(self.slots(), i as int);
                    assert(self.slots()[i as int].entry == self.entries@[i as int].entry@);
                }
                match self.entries[i].entry.expiration {
                    Some(exp) => {
                        if exp <= now {
                            Err(DictionaryError::IsExpired)
                        } else {
                            Ok(self.entries[i].entry.value.clone())
                        }
                    },
                    None => Ok(self.entries[i].entry.value.clone()),
                }
            },
        }
    }

    /// Reads the entry for `key` at the instant the wall clock reports.
    /// Whatever the clock says: an absent key fails `DoesNotExist`, and an
    /// entry with no expiration is returned.
    pub fn get(&self, key: &str) -> (r: Result<String, DictionaryError>)
        requires
            self.wf(),
        ensures
            exists|now: u64|
                #[trigger] spec_get(self@, key@, now) == (match r {
                    Ok(v) => Ok::<Seq<char>, DictionaryError>(v@),
                    Err(e) => Err::<Seq<char>, DictionaryError>(e),
                }),
            !self@.contains_key(key@) ==> r == Err::<String, DictionaryError>(
                DictionaryError::DoesNotExist,
            ),
            self@.contains_key(key@) && self@[key@].expiration is None ==> (r matches Ok(v)
                && v@ == self@[key@].value),
    {
        let now = now_nanos();
        let r = self.get_at(key, now);
        proof {
            assert(spec_get(self@, key@, now) == (match r {
                Ok(v) => Ok::<Seq<char>, DictionaryError>(v@),
                Err(e) => Err::<Seq<char>, DictionaryError>(e),
            }));
        }
        r
    }

    /// Removes `key` unconditionally, expired or not; fails `DoesNotExist`
    /// only if the key is physically absent.
    pub fn del(&mut self, key: &str) -> (r: Result<(), DictionaryError>)
        requires
            old(self).wf(),
        ensures
            final(self).wf(),
            old(self)@.contains_key(key@) ==> r is Ok && final(self)@ == old(self)@.remove(key@),
            !old(self)@.contains_key(key@) ==> r == Err::<(), DictionaryError>(
                DictionaryError::DoesNotExist,
            ) && final(self)@ == old(self)@,
    {
        let ghost s0 = self.slots();
        match self.find_index(key) {
            None => {
                proof {
                    lemma_slots_map_absent(self.slots(), key@);
                }
                Err(DictionaryError::DoesNotExist)
            },
            Some(i) => {
                proof {
                    lemma_slots_map_index(s0, i as int);
                    lemma_slots_map_remove(s0, i as int);
                }
                self.entries.remove(i);
                proof {
                    assert(self.slots() =~= s0.remove(i as int));
                    assert(s0.remove(i as int) =~= s0.subrange(0, i as int) + s0.subrange(
                        i as int + 1,
                        s0.len() as int,
                    ));
                    assert(keys_unique(self.slots()));
                }
                Ok(())
            },
        }
    }

    /// Whether `key` is present and unexpired at instant `now`.
    pub fn exists_at(&self, key: &str, now: u64) -> (r: bool)
        requires
            self.wf(),
        ensures
            r == spec_exists(self@, key@, now),
    {
        match self.find_index(key) {
            None => {
                proof {
                    lemma_slots_map_absent(self.slots(), key@);
                }
                false
            },
            Some(i) => {
                proof {
                    lemma_slots_map_index(self.slots(), i as int);
                    assert(self.slots()[i as int].entry == self.entries@[i as int].entry@);
                }
                match self.entries[i].entry.expiration {
                    None => true,
                    Some(expiration) => now < expiration,
                }
            },
        }
    }

    /// Whether `key` is present and unexpired at the instant the wall
    /// clock reports. Whatever the clock says: `false` for an absent key,
    /// `true` for an entry with no expiration.
    pub fn key_exists(&self, key: &str) -> (r: bool)
        requires
            self.wf(),
        ensures
            exists|now: u64| r == #[trigger] spec_exists(self@, key@, now),
            !self@.contains_key(key@) ==> !r,
            self@.contains_key(key@) && self@[key@].expiration is None ==> r,
    {
        let now = now_nanos();
        let r = self.exists_at(key, now);
        proof {
            assert(r == spec_exists(self@, key@, now));
        }
        r
    }

    /// Sets `expiration = now + lifetime` (saturating) on the entry for
    /// `key`, overwriting any prior expiration; fails `DoesNotExist` if
    /// the key is absent, and then changes nothing.
    pub fn expire_at(&mut self, key: &str, lifetime: u64, now: u64) -> (r: Result<
        (),
        DictionaryError,
    >)
        requires
            old(self).wf(),
        ensures
            final(self).wf(),
            old(self)@.contains_key(key@) ==> r is Ok && final(self)@ == old(self)@.insert(
                key@,
                EntryView {
                    value: old(self)@[key@].value,
                    expiration: Some(sat_add(now, lifetime)),
                },
            ),
            !old(self)@.contains_key(key@) ==> r == Err::<(), DictionaryError>(
                DictionaryError::DoesNotExist,
            ) && final(self)@ == old(self)@,
    {
        let ghost s0 = self.slots();
        match self.find_index(key) {
            None => {
                proof {
                    lemma_slots_map_absent(self.slots(), key@);
                }
                Err(DictionaryError::DoesNotExist)
            },
            Some(i) => {
                proof {
                    lemma_slots_map_index(s0, i as int);
                }
                let exp = sat_add_exec(now, lifetime);
                let slot = Slot {
                    key: self.entries[i].key.clone(),
                    entry: Entry {
                        value: self.entries[i].entry.value.clone(),
                        expiration: Some(exp),
                    },
                };
                let ghost sl = SlotView { key: slot.key@, entry: slot.entry@ };
                self.entries[i] = slot;
                proof {
                    assert(self.slots() =~= s0.update(i as int, sl));
                    lemma_slots_map_update(s0, i as int, sl);
                    assert(keys_unique(self.slots()));
                }
                Ok(())
            },
        }
    }

    /// `expire` against the wall clock. Whatever the clock says: an absent
    /// key fails `DoesNotExist` and nothing changes; a present key gets
    /// some expiration `now + lifetime` and keeps its value.
    pub fn expire(&mut self, key: &str, lifetime: u64) -> (r: Result<(), DictionaryError>)
        requires
            old(self).wf(),
        ensures
            final(self).wf(),
            exists|now: u64|
                old(self)@.contains_key(key@) ==> r is Ok && final(self)@ == old(self)@.insert(
                    key@,
                    EntryView {
                        value: old(self)@[key@].value,
                        expiration: Some(#[trigger] sat_add(now, lifetime)),
                    },
                ),
            !old(self)@.contains_key(key@) ==> r == Err::<(), DictionaryError>(
                DictionaryError::DoesNotExist,
            ) && final(self)@ == old(self)@,
    {
        let now = now_nanos();
        self.expire_at(key, lifetime, now)
    }

    /// Increments the integer value of `key` at instant `now`; see
    /// `spec_incr`. The read and the write happen under one exclusive
    /// borrow: concurrent increments cannot lose updates.
    pub fn incr_at(&mut self, key: &str, now: u64) -> (r: Result<(), DictionaryError>)
        requires
            old(self).wf(),
        ensures
            final(self).wf(),
            final(self)@ == spec_incr(old(self)@, key@, now).0,
            r == spec_incr(old(self)@, key@, now).1,
    {
        match self.get_at(key, now) {
            Err(e) => Err(e),
            Ok(v) => {
                match parse_i64(v.as_str()) {
                    None => Err(DictionaryError::InvalidOperationType),
                    Some(x) => {
                        let nx: i64 = if x == i64::MAX {
                            i64::MIN
                        } else {
                            x + 1
                        };
                        self.set(key.to_owned(), Entry { value: i64_to_string(nx), expiration: None });
                        Ok(())
                    },
                }
            },
        }
    }

    /// Decrements the integer value of `key` at instant `now`; see
    /// `spec_decr`.
    pub fn decr_at(&mut self, key: &str, now: u64) -> (r: Result<(), DictionaryError>)
        requires
            old(self).wf(),
        ensures
            final(self).wf(),
            final(self)@ == spec_decr(old(self)@, key@, now).0,
            r == spec_decr(old(self)@, key@, now).1,
    {
        match self.get_at(key, now) {
            Err(e) => Err(e),
            Ok(v) => {
                match parse_i64(v.as_str()) {
                    None => Err(DictionaryError::InvalidOperationType),
                    Some(x) => {
                        let nx: i64 = if x == i64::MIN {
                            i64::MAX
                        } else {
                            x - 1
                        };
                        self.set(key.to_owned(), Entry { value: i64_to_string(nx), expiration: None });
                        Ok(())
                    },
                }
            },
        }
    }

    /// `incr` against the wall clock; see `spec_incr`.
    pub fn incr(&mut self, key: &str) -> (r: Result<(), DictionaryError>)
        requires
            old(self).wf(),
        ensures
            final(self).wf(),
            exists|now: u64|
                final(self)@ == (#[trigger] spec_incr(old(self)@, key@, now)).0 && r == spec_incr(
                    old(self)@,
                    key@,
                    now,
                ).1,
    {
        let now = now_nanos();
        self.incr_at(key, now)
    }

    /// `decr` against the wall clock; see `spec_decr`.
    pub fn decr(&mut self, key: &str) -> (r: Result<(), DictionaryError>)
        requires
            old(self).wf(),
        ensures
            final(self).wf(),
            exists|now: u64|
                final(self)@ == (#[trigger] spec_decr(old(self)@, key@, now)).0 && r == spec_decr(
                    old(self)@,
                    key@,
                    now,
                ).1,
    {
        let now = now_nanos();
        self.decr_at(key, now)
    }

    /// Empties the store unconditionally; never fails.
    pub fn clear(&mut self)
        ensures
            final(self).wf(),
            final(self)@ == Map::<Seq<char>, EntryView>::empty(),
            final(self).slots() == Seq::<SlotView>::empty(),
    {
        self.entries.clear();
        proof {
            assert(self.slots() =~= Seq::<SlotView>::empty());
        }
    }

    /// Runs one command at instant `now`, with the exact outcome given by
    /// `spec_run`. `Load` commands are the embedding program's task and
    /// are excluded here.
    pub fn run_at(&mut self, command: Command, now: u64) -> (r: Result<
        CommandResult,
        DictionaryError,
    >)
        requires
            old(self).wf(),
            !(command@ is Load),
        ensures
            final(self).wf(),
            final(self)@ == spec_run(old(self)@, command@, now).0,
            result_view(r) == spec_run(old(self)@, command@, now).1,
    {
        match command {
            Command::Put(key, value) => {
                self.set(key, Entry { value, expiration: None });
                Ok(CommandResult::Put)
            },
            Command::Get(key) => {
                match self.get_at(key.as_str(), now) {
                    Ok(v) => Ok(CommandResult::Get(v)),
                    Err(e) => Err(e),
                }
            },
            Command::Del(key) => {
                match self.del(key.as_str()) {
                    Ok(_) => Ok(CommandResult::Del),
                    Err(e) => Err(e),
                }
            },
            Command::Exists(key) => Ok(CommandResult::Exists(self.exists_at(key.as_str(), now))),
            Command::Expire(key, lifetime) => {
                match self.expire_at(key.as_str(), lifetime, now) {
                    Ok(_) => Ok(CommandResult::Expire),
                    Err(e) => Err(e),
                }
            },
            Command::Incr(key) => {
                match self.incr_at(key.as_str(), now) {
                    Ok(_) => Ok(CommandResult::Incr),
                    Err(e) => Err(e),
                }
            },
            Command::Decr(key) => {
                match self.decr_at(key.as_str(), now) {
                    Ok(_) => Ok(CommandResult::Decr),
                    Err(e) => Err(e),
                }
            },
            Command::Clear => {
                self.clear();
                Ok(CommandResult::Clear)
            },
            Command::Save => Ok(CommandResult::Save),
            Command::Load => vstd::pervasive::unreached(),
        }
    }

    /// Runs one command at the instant the wall clock reports; the outcome
    /// is `spec_run` at that instant.
    pub fn run_headless(&mut self, command: Command) -> (r: Result<CommandResult, DictionaryError>)
        requires
            old(self).wf(),
            !(command@ is Load),
        ensures
            final(self).wf(),
            exists|now: u64|
                final(self)@ == (#[trigger] spec_run(old(self)@, command@, now)).0 && result_view(r)
                    == spec_run(old(self)@, command@, now).1,
    {
        let now = now_nanos();
        self.run_at(command, now)
    }

    /// Runs one command and renders the outcome as the one response line:
    /// the rendered result on success, the error's message on failure.
    pub fn run(&mut self, command: Command) -> (r: String)
        requires
            old(self).wf(),
            !(command@ is Load),
        ensures
            final(self).wf(),
            exists|now: u64|
                {
                    let (m2, res) = #[trigger] spec_run(old(self)@, command@, now);
                    final(self)@ == m2 && r@ == (match res {
                        Ok(rv) => rv.rendered(),
                        Err(e) => e.message(),
                    })
                },
    {
        match self.run_headless(command) {
            Err(e) => e.to_string(),
            Ok(ret) => ret.to_string(),
        }
    }
}

} // verus!
