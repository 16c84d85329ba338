//! The store's laws, stated over the mathematical model of the command
//! semantics (`spec_run` and its helpers) and proved once and for all.

use vstd::prelude::*;
use crate::command::{CommandResultView, CommandView};
use crate::dictionary::{
    sat_add, spec_decr, spec_exists, spec_get, spec_incr, spec_run, wrap_inc, EntryView,
};
use crate::errors::DictionaryError;
use crate::numbers::{lemma_i64_string_parses, spec_i64_string, spec_parse_i64};

verus! {

/// Setting a key and then reading it, with no expiration in between:
/// `Get` returns the value and `Exists` reports `true`, at every pair of
/// instants.
pub proof fn lemma_set_then_get(
    m: Map<Seq<char>, EntryView>,
    k: Seq<char>,
    v: Seq<char>,
    now1: u64,
    now2: u64,
)
    ensures
        spec_run(spec_run(m, CommandView::Put(k, v), now1).0, CommandView::Get(k), now2).1
            == Ok::<CommandResultView, DictionaryError>(CommandResultView::Get(v)),
        spec_run(spec_run(m, CommandView::Put(k, v), now1).0, CommandView::Exists(k), now2).1
            == Ok::<CommandResultView, DictionaryError>(CommandResultView::Exists(true)),
{
}

/// `Del` on an absent key fails `DoesNotExist` and changes nothing; on a
/// present key it removes the entry, so a subsequent `Get` fails
/// `DoesNotExist`.
pub proof fn lemma_del(m: Map<Seq<char>, EntryView>, k: Seq<char>, now1: u64, now2: u64)
    ensures
        !m.contains_key(k) ==> spec_run(m, CommandView::Del(k), now1) == (
            m,
            Err::<CommandResultView, DictionaryError>(DictionaryError::DoesNotExist),
        ),
        m.contains_key(k) ==> spec_run(m, CommandView::Del(k), now1).1 == Ok::<
            CommandResultView,
            DictionaryError,
        >(CommandResultView::Del),
        m.contains_key(k) ==> spec_run(
            spec_run(m, CommandView::Del(k), now1).0,
            CommandView::Get(k),
            now2,
        ).1 == Err::<CommandResultView, DictionaryError>(DictionaryError::DoesNotExist),
{
}

/// `Expire` on an absent key fails `DoesNotExist` and creates no entry.
pub proof fn lemma_expire_absent(m: Map<Seq<char>, EntryView>, k: Seq<char>, d: u64, now: u64)
    requires
        !m.contains_key(k),
    ensures
        spec_run(m, CommandView::Expire(k, d), now) == (
            m,
            Err::<CommandResultView, DictionaryError>(DictionaryError::DoesNotExist),
        ),
{
}

/// After `Set(k, v)` and `Expire(k, d)`, once `d` has elapsed: `Get`
/// fails `IsExpired`, `Exists` reports `false`, and the entry is still
/// physically present, so `Del` succeeds rather than `DoesNotExist`.
pub proof fn lemma_expired_entry(
    m: Map<Seq<char>, EntryView>,
    k: Seq<char>,
    v: Seq<char>,
    d: u64,
    now1: u64,
    now2: u64,
)
    requires
        now2 >= sat_add(now1, d),
    ensures
        spec_run(spec_run(m, CommandView::Put(k, v), now1).0, CommandView::Expire(k, d), now1).1
            == Ok::<CommandResultView, DictionaryError>(CommandResultView::Expire),
        ({
            let m2 = spec_run(
                spec_run(m, CommandView::Put(k, v), now1).0,
                CommandView::Expire(k, d),
                now1,
            ).0;
            &&& spec_run(m2, CommandView::Get(k), now2).1 == Err::<
                CommandResultView,
                DictionaryError,
            >(DictionaryError::IsExpired)
            &&& spec_run(m2, CommandView::Exists(k), now2).1 == Ok::<
                CommandResultView,
                DictionaryError,
            >(CommandResultView::Exists(false))
            &&& m2.contains_key(k)
            &&& spec_run(m2, CommandView::Del(k), now2).1 == Ok::<
                CommandResultView,
                DictionaryError,
            >(CommandResultView::Del)
        }),
{
}

/// `Incr` and `Decr` on a present, unexpired value that does not parse as
/// a signed 64-bit integer fail `InvalidOperationType` and leave the
/// store — the entry included — untouched.
pub proof fn lemma_incr_invalid(m: Map<Seq<char>, EntryView>, k: Seq<char>, now: u64)
    requires
        spec_get(m, k, now) is Ok,
        spec_parse_i64(m[k].value) is None,
    ensures
        spec_incr(m, k, now) == (
            m,
            Err::<(), DictionaryError>(DictionaryError::InvalidOperationType),
        ),
        spec_decr(m, k, now) == (
            m,
            Err::<(), DictionaryError>(DictionaryError::InvalidOperationType),
        ),
{
}

/// The store after incrementing `k` once per listed instant.
pub open spec fn repeat_incr(m: Map<Seq<char>, EntryView>, k: Seq<char>, nows: Seq<u64>) -> Map<
    Seq<char>,
    EntryView,
>
    decreases nows.len(),
{
    if nows.len() == 0 {
        m
    } else {
        repeat_incr(spec_incr(m, k, nows[0]).0, k, nows.drop_first())
    }
}

/// Every one of those increments succeeds.
pub open spec fn repeat_incr_all_ok(
    m: Map<Seq<char>, EntryView>,
    k: Seq<char>,
    nows: Seq<u64>,
) -> bool
    decreases nows.len(),
{
    if nows.len() == 0 {
        true
    } else {
        spec_incr(m, k, nows[0]).1 is Ok && repeat_incr_all_ok(
            spec_incr(m, k, nows[0]).0,
            k,
            nows.drop_first(),
        )
    }
}

/// Setting a key to the decimal text of `v0` and incrementing it once per
/// listed instant: every increment succeeds, and a subsequent `Get` at
/// any instant returns the decimal text of `v0 + n`. Stated for `v0 + n`
/// within the signed 64-bit range; past `i64::MAX` an increment wraps
/// (`v0 = i64::MAX` with one increment is such an input).
pub proof fn lemma_incr_n(
    m: Map<Seq<char>, EntryView>,
    k: Seq<char>,
    v0: int,
    nows: Seq<u64>,
    now_read: u64,
)
    requires
        i64::MIN as int <= v0,
        v0 + nows.len() <= i64::MAX as int,
    ensures
        repeat_incr_all_ok(
            m.insert(k, EntryView { value: spec_i64_string(v0), expiration: None }),
            k,
            nows,
        ),
        repeat_incr(m.insert(k, EntryView { value: spec_i64_string(v0), expiration: None }), k, nows)
            == m.insert(
            k,
            EntryView { value: spec_i64_string(v0 + nows.len()), expiration: None },
        ),
        spec_get(
            repeat_incr(
                m.insert(k, EntryView { value: spec_i64_string(v0), expiration: None }),
                k,
                nows,
            ),
            k,
            now_read,
        ) == Ok::<Seq<char>, DictionaryError>(spec_i64_string(v0 + nows.len())),
    decreases nows.len(),
{
    let m0 = m.insert(k, EntryView { value: spec_i64_string(v0), expiration: None });
    lemma_i64_string_parses(v0);
    if nows.len() == 0 {
        assert(v0 + nows.len() == v0);
        assert(spec_get(m0, k, now_read) == Ok::<Seq<char>, DictionaryError>(spec_i64_string(v0)));
    } else {
        assert(spec_get(m0, k, nows[0]) == Ok::<Seq<char>, DictionaryError>(spec_i64_string(v0)));
        assert(spec_parse_i64(spec_i64_string(v0)) == Some(v0));
        assert(wrap_inc(v0) == v0 + 1);
        let m1 = spec_incr(m0, k, nows[0]).0;
        assert(m1 == m0.insert(k, EntryView { value: spec_i64_string(v0 + 1), expiration: None }));
        let m0next = m.insert(k, EntryView { value: spec_i64_string(v0 + 1), expiration: None });
        assert(m1 =~= m0next);
        lemma_incr_n(m, k, v0 + 1, nows.drop_first(), now_read);
        assert(repeat_incr(m0, k, nows) == repeat_incr(m0next, k, nows.drop_first()));
        assert(v0 + 1 + nows.drop_first().len() == v0 + nows.len());
    }
}

} // verus!
