//! The snapshot codec: one line per entry, `key,value` or
//! `key,value,expiration` with the expiration as an RFC3339 timestamp.
//! The delimiter is not escaped: a key or value holding a comma or a
//! newline corrupts the format, a documented gap.
//!
//! Reading a snapshot destructively replaces the store: the store is
//! cleared first, lines are inserted one by one, and a failure partway
//! leaves whatever had been inserted before the failing line.

use vstd::prelude::*;
use crate::dictionary::{Dictionary, Entry, EntryView, SlotView, slots_map};
use crate::errors::SerializationError;
use crate::text::{
    lines, lemma_lines_prepend, lemma_split_sep_acc_concat, lemma_split_sep_acc_free, spec_lines,
    split_sep, split_sep_str,
};
use crate::time::{
    format_timestamp, parse_timestamp, rfc3339_of, timestamp_codec_ok, timestamp_of,
};

verus! {

/// A character the unescaped snapshot format can carry in a key or value.
pub open spec fn char_clean(c: char) -> bool {
    c != ',' && c != '\n' && c != '\r'
}

pub open spec fn text_clean(t: Seq<char>) -> bool {
    forall|i: int| 0 <= i < t.len() ==> char_clean(#[trigger] t[i])
}

/// An entry the snapshot format represents faithfully: no delimiter
/// characters in its key or value (the format has no escaping).
pub open spec fn slot_clean(sl: SlotView) -> bool {
    text_clean(sl.key) && text_clean(sl.entry.value)
}

/// The timestamp facts that `format_timestamp` establishes for the slot's
/// expiration, if it has one.
pub open spec fn slot_codec_ok(sl: SlotView) -> bool {
    match sl.entry.expiration {
        Some(t) => timestamp_codec_ok(t),
        None => true,
    }
}

/// The snapshot line for one entry, without its terminating newline.
pub open spec fn spec_csv_line(sl: SlotView) -> Seq<char> {
    sl.key + seq![','] + sl.entry.value + (match sl.entry.expiration {
        Some(t) => seq![','] + rfc3339_of(t),
        None => Seq::empty(),
    })
}

/// The whole snapshot: every entry's line in store order, each terminated
/// by a newline.
pub open spec fn spec_csv(s: Seq<SlotView>) -> Seq<char>
    decreases s.len(),
{
    if s.len() == 0 {
        Seq::empty()
    } else {
        spec_csv(s.drop_last()) + spec_csv_line(s.last()) + seq!['\n']
    }
}

/// What one snapshot line denotes: the key is the text before the first
/// comma (always present), the value the text before the second;
/// `ValueRead` if there is no comma, `TimestampRead` if a third field is
/// present but is not a timestamp. Fields past the third are ignored.
pub open spec fn spec_parse_csv_line(line: Seq<char>) -> Result<
    (Seq<char>, EntryView),
    SerializationError,
> {
    let parts = split_sep(line, ',');
    if parts.len() < 2 {
        Err(SerializationError::ValueRead)
    } else if parts.len() == 2 {
        Ok((parts[0], EntryView { value: parts[1], expiration: None }))
    } else {
        match timestamp_of(parts[2]) {
            Some(t) => Ok((parts[0], EntryView { value: parts[1], expiration: Some(t) })),
            None => Err(SerializationError::TimestampRead),
        }
    }
}

/// The store after reading the given lines into `m`, and the outcome: on
/// a failing line, reading stops and the store keeps what was inserted.
pub open spec fn spec_restore_lines(ls: Seq<Seq<char>>, m: Map<Seq<char>, EntryView>) -> (
    Map<Seq<char>, EntryView>,
    Result<(), SerializationError>,
)
    decreases ls.len(),
{
    if ls.len() == 0 {
        (m, Ok(()))
    } else {
        match spec_parse_csv_line(ls[0]) {
            Ok((k, e)) => spec_restore_lines(ls.drop_first(), m.insert(k, e)),
            Err(err) => (m, Err(err)),
        }
    }
}

/// The store and outcome of reading a whole snapshot into an empty store.
pub open spec fn spec_restore(text: Seq<char>) -> (
    Map<Seq<char>, EntryView>,
    Result<(), SerializationError>,
) {
    spec_restore_lines(spec_lines(text), Map::empty())
}

/// The snapshot codec. It holds no state of its own: each call is handed
/// the store it reads or fills.
pub struct Serializer {
}

impl Serializer {
    pub fn new() -> (s: Serializer) {
        Serializer {  }
    }

    /// Renders every entry of the store, expired or not, with its stored
    /// expiration if any.
    pub fn get_as_csv(&self, dict: &Dictionary) -> (r: String)
        ensures
            r@ == spec_csv(dict.slots()),
            forall|j: int| 0 <= j < dict.slots().len() ==> slot_codec_ok(#[trigger] dict.slots()[j]),
    {
        let ghost slots = dict.slots();
        let mut r = String::new();
        let mut k: usize = 0;
        let n = dict.entries.len();
        proof {
            dict.lemma_slots_entries();
            assert(slots.subrange(0, 0) =~= Seq::<SlotView>::empty());
        }
        while k < n
            invariant
                n == dict.entries@.len(),
                k <= n,
                slots == dict.slots(),
                slots.len() == n,
                r@ == spec_csv(slots.subrange(0, k as int)),
                forall|j: int| 0 <= j < k ==> slot_codec_ok(#[trigger] slots[j]),
            decreases n - k,
        {
            proof {
                reveal_strlit(",");
                reveal_strlit("\n");
                dict.lemma_slots_entries();
                assert(slots[k as int].key == dict.entries@[k as int].key@);
                assert(slots[k as int].entry == dict.entries@[k as int].entry@);
            }
            r.append(dict.entries[k].key.as_str());
            r.append(",");
            r.append(dict.entries[k].entry.value.as_str());
            match dict.entries[k].entry.expiration {
                Some(t) => {
                    let ts = format_timestamp(t);
                    proof {
                        assert(timestamp_codec_ok(t));
                    }
                    r.append(",");
                    r.append(ts.as_str());
                },
                None => {},
            }
            r.append("\n");
            proof {
                assert(","@ =~= seq![',']);
                assert("\n"@ =~= seq!['\n']);
                assert(slots.subrange(0, k as int + 1).drop_last() =~= slots.subrange(0, k as int));
                assert(slots.subrange(0, k as int + 1).last() == slots[k as int]);
                assert(r@ =~= spec_csv(slots.subrange(0, k as int + 1)));
            }
            k = k + 1;
        }
        proof {
            assert(slots.subrange(0, n as int) =~= slots);
        }
        r
    }

    /// Destructively replaces the store's contents with what the snapshot
    /// text holds; a failure partway leaves the entries inserted so far.
    pub fn set_from_csv(&self, dict: &mut Dictionary, csv: &str) -> (r: Result<
        (),
        SerializationError,
    >)
        requires
            old(dict).wf(),
        ensures
            final(dict).wf(),
            final(dict)@ == spec_restore(csv@).0,
            r == spec_restore(csv@).1,
    {
        dict.clear();
        let ls = lines(csv);
        let ghost lviews = spec_lines(csv@);
        let n = ls.len();
        let mut i: usize = 0;
        proof {
            assert(lviews.skip(0) =~= lviews);
        }
        while i < n
            invariant
                dict.wf(),
                n == ls@.len(),
                ls.deep_view() == lviews,
                lviews.len() == n,
                i <= n,
                spec_restore(csv@) == spec_restore_lines(lviews.skip(i as int), dict@),
            decreases n - i,
        {
            proof {
                assert(ls.deep_view()[i as int] == ls@[i as int]@);
                assert(lviews.skip(i as int)[0] == lviews[i as int]);
                assert(lviews.skip(i as int).drop_first() =~= lviews.skip(i as int + 1));
            }
            let parts = split_sep_str(ls[i].as_str(), ',');
            proof {
                assert(parts.deep_view().len() == parts@.len());
            }
            if parts.len() < 2 {
                return Err(SerializationError::ValueRead);
            }
            proof {
                assert(parts.deep_view()[0] == parts@[0]@);
                assert(parts.deep_view()[1] == parts@[1]@);
            }
            let expiration: Option<u64> = if parts.len() >= 3 {
                proof {
                    assert(parts.deep_view()[2] == parts@[2]@);
                }
                match parse_timestamp(parts[2].as_str()) {
                    Some(t) => Some(t),
                    None => {
                        return Err(SerializationError::TimestampRead);
                    },
                }
            } else {
                None
            };
            dict.set(parts[0].clone(), Entry { value: parts[1].clone(), expiration });
            i = i + 1;
        }
        proof {
            assert(lviews.skip(n as int) =~= Seq::<Seq<char>>::empty());
        }
        Ok(())
    }
}

proof fn lemma_csv_front(s: Seq<SlotView>)
    requires
        s.len() > 0,
    ensures
        spec_csv(s) == spec_csv_line(s[0]) + seq!['\n'] + spec_csv(s.drop_first()),
    decreases s.len(),
{
    if s.len() == 1 {
        assert(s.drop_last() =~= Seq::<SlotView>::empty());
        assert(s.drop_first() =~= Seq::<SlotView>::empty());
        assert(s.last() == s[0]);
        assert(spec_csv(s) =~= spec_csv_line(s[0]) + seq!['\n'] + spec_csv(s.drop_first()));
    } else {
        lemma_csv_front(s.drop_last());
        assert(s.drop_last()[0] == s[0]);
        assert(s.drop_last().drop_first() =~= s.drop_first().drop_last());
        assert(s.drop_first().last() == s.last());
        assert(spec_csv(s) =~= spec_csv_line(s[0]) + seq!['\n'] + spec_csv(s.drop_first()));
    }
}

proof fn lemma_csv_line_clean(sl: SlotView)
    requires
        slot_clean(sl),
        slot_codec_ok(sl),
    ensures
        forall|i: int|
            0 <= i < spec_csv_line(sl).len() ==> spec_csv_line(sl)[i] != '\n' && spec_csv_line(
                sl,
            )[i] != '\r',
{
    let line = spec_csv_line(sl);
    assert forall|i: int| 0 <= i < line.len() implies line[i] != '\n' && line[i] != '\r' by {
        let k = sl.key.len() as int;
        let v = sl.entry.value.len() as int;
        if i < k {
            assert(line[i] == sl.key[i]);
        } else if i == k {
            assert(line[i] == ',');
        } else if i < k + 1 + v {
            assert(line[i] == sl.entry.value[i - k - 1]);
        } else {
            match sl.entry.expiration {
                Some(t) => {
                    if i == k + 1 + v {
                        assert(line[i] == ',');
                    } else {
                        assert(line[i] == rfc3339_of(t)[i - k - 1 - v - 1]);
                    }
                },
                None => {},
            }
        }
    }
}

proof fn lemma_parse_generated_line(sl: SlotView)
    requires
        slot_clean(sl),
        slot_codec_ok(sl),
    ensures
        spec_parse_csv_line(spec_csv_line(sl)) == Ok::<(Seq<char>, EntryView), SerializationError>(
            (sl.key, sl.entry),
        ),
{
    let line = spec_csv_line(sl);
    match sl.entry.expiration {
        None => {
            assert(line =~= sl.key + seq![','] + sl.entry.value);
            lemma_split_sep_acc_concat(sl.key, sl.entry.value, ',', Seq::<char>::empty());
            lemma_split_sep_acc_free(sl.entry.value, ',', Seq::<char>::empty());
            assert(Seq::<char>::empty() + sl.key =~= sl.key);
            assert(Seq::<char>::empty() + sl.entry.value =~= sl.entry.value);
            let parts = split_sep(line, ',');
            assert(parts =~= seq![sl.key, sl.entry.value]);
            assert(EntryView { value: parts[1], expiration: None } == sl.entry);
        },
        Some(t) => {
            let tail = sl.entry.value + seq![','] + rfc3339_of(t);
            assert(line =~= sl.key + seq![','] + tail);
            lemma_split_sep_acc_concat(sl.key, tail, ',', Seq::<char>::empty());
            lemma_split_sep_acc_concat(sl.entry.value, rfc3339_of(t), ',', Seq::<char>::empty());
            lemma_split_sep_acc_free(rfc3339_of(t), ',', Seq::<char>::empty());
            assert(Seq::<char>::empty() + sl.key =~= sl.key);
            assert(Seq::<char>::empty() + sl.entry.value =~= sl.entry.value);
            assert(Seq::<char>::empty() + rfc3339_of(t) =~= rfc3339_of(t));
            let parts = split_sep(line, ',');
            assert(parts =~= seq![sl.key, sl.entry.value, rfc3339_of(t)]);
            assert(timestamp_of(parts[2]) == Some(t));
            assert(EntryView { value: parts[1], expiration: Some(t) } == sl.entry);
        },
    }
}

/// The snapshot's lines, one per entry.
pub open spec fn csv_lines(s: Seq<SlotView>) -> Seq<Seq<char>> {
    Seq::new(s.len(), |i: int| spec_csv_line(s[i]))
}

proof fn lemma_lines_csv(s: Seq<SlotView>)
    requires
        forall|j: int| 0 <= j < s.len() ==> slot_clean(#[trigger] s[j]),
        forall|j: int| 0 <= j < s.len() ==> slot_codec_ok(#[trigger] s[j]),
    ensures
        spec_lines(spec_csv(s)) == csv_lines(s),
    decreases s.len(),
{
    if s.len() == 0 {
        assert(split_sep(Seq::<char>::empty(), '\n') =~= seq![Seq::<char>::empty()]);
        assert(spec_lines(Seq::<char>::empty()) =~= Seq::<Seq<char>>::empty());
        assert(csv_lines(s) =~= Seq::<Seq<char>>::empty());
    } else {
        lemma_csv_front(s);
        lemma_csv_line_clean(s[0]);
        lemma_lines_prepend(spec_csv_line(s[0]), spec_csv(s.drop_first()));
        assert(forall|j: int|
            0 <= j < s.drop_first().len() ==> slot_clean(#[trigger] s.drop_first()[j]));
        assert(forall|j: int|
            0 <= j < s.drop_first().len() ==> slot_codec_ok(#[trigger] s.drop_first()[j]));
        lemma_lines_csv(s.drop_first());
        assert(csv_lines(s) =~= seq![spec_csv_line(s[0])] + csv_lines(s.drop_first()));
    }
}

/// Inserting every listed entry into `m`, front to back.
pub open spec fn insert_all(m: Map<Seq<char>, EntryView>, s: Seq<SlotView>) -> Map<
    Seq<char>,
    EntryView,
>
    decreases s.len(),
{
    if s.len() == 0 {
        m
    } else {
        insert_all(m.insert(s[0].key, s[0].entry), s.drop_first())
    }
}

proof fn lemma_insert_all_snoc(m: Map<Seq<char>, EntryView>, s: Seq<SlotView>, x: SlotView)
    ensures
        insert_all(m, s.push(x)) == insert_all(m, s).insert(x.key, x.entry),
    decreases s.len(),
{
    if s.len() == 0 {
        assert(s.push(x)[0] == x);
        assert(s.push(x).drop_first() =~= Seq::<SlotView>::empty());
        assert(insert_all(m, s.push(x)) == insert_all(
            m.insert(x.key, x.entry),
            Seq::<SlotView>::empty(),
        ));
        assert(insert_all(m.insert(x.key, x.entry), Seq::<SlotView>::empty()) == m.insert(
            x.key,
            x.entry,
        ));
        assert(insert_all(m, s) == m);
    } else {
        assert(s.push(x)[0] == s[0]);
        assert(s.push(x).drop_first() =~= s.drop_first().push(x));
        assert(insert_all(m, s.push(x)) == insert_all(
            m.insert(s[0].key, s[0].entry),
            s.drop_first().push(x),
        ));
        lemma_insert_all_snoc(m.insert(s[0].key, s[0].entry), s.drop_first(), x);
        assert(insert_all(m, s) == insert_all(m.insert(s[0].key, s[0].entry), s.drop_first()));
    }
}

proof fn lemma_insert_all_map(s: Seq<SlotView>)
    ensures
        insert_all(Map::empty(), s) == slots_map(s),
    decreases s.len(),
{
    if s.len() > 0 {
        lemma_insert_all_map(s.drop_last());
        lemma_insert_all_snoc(Map::empty(), s.drop_last(), s.last());
        assert(s.drop_last().push(s.last()) =~= s);
    }
}

proof fn lemma_restore_csv_lines(s: Seq<SlotView>, m: Map<Seq<char>, EntryView>)
    requires
        forall|j: int| 0 <= j < s.len() ==> slot_clean(#[trigger] s[j]),
        forall|j: int| 0 <= j < s.len() ==> slot_codec_ok(#[trigger] s[j]),
    ensures
        spec_restore_lines(csv_lines(s), m) == (insert_all(m, s), Ok::<(), SerializationError>(())),
    decreases s.len(),
{
    if s.len() > 0 {
        lemma_parse_generated_line(s[0]);
        assert(csv_lines(s)[0] == spec_csv_line(s[0]));
        assert(csv_lines(s).drop_first() =~= csv_lines(s.drop_first()));
        assert(forall|j: int|
            0 <= j < s.drop_first().len() ==> slot_clean(#[trigger] s.drop_first()[j]));
        assert(forall|j: int|
            0 <= j < s.drop_first().len() ==> slot_codec_ok(#[trigger] s.drop_first()[j]));
        lemma_restore_csv_lines(s.drop_first(), m.insert(s[0].key, s[0].entry));
    }
}

/// The round-trip law: the snapshot of a store, read back into a cleared
/// store as `set_from_csv` reads it, reproduces exactly the original
/// entries — keys, values and expirations. It holds for any enumeration
/// order of the entries, and requires keys and values free of the
/// delimiter characters (the format has no escaping, a documented gap)
/// together with the formatter's timestamp facts, which every
/// `get_as_csv` call establishes.
pub proof fn lemma_snapshot_round_trip(s: Seq<SlotView>)
    requires
        forall|j: int| 0 <= j < s.len() ==> slot_clean(#[trigger] s[j]),
        forall|j: int| 0 <= j < s.len() ==> slot_codec_ok(#[trigger] s[j]),
    ensures
        spec_restore(spec_csv(s)) == (slots_map(s), Ok::<(), SerializationError>(())),
{
    lemma_lines_csv(s);
    lemma_restore_csv_lines(s, Map::empty());
    lemma_insert_all_map(s);
}

} // verus!
