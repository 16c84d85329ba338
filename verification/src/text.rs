//! Verified text utilities: whitespace tokenization, joining tokens, and
//! string equality, with full specifications over `Seq<char>`.

use vstd::prelude::*;

verus! {

/// The whitespace characters on which command lines are split.
pub open spec fn is_ws(c: char) -> bool {
    c == ' ' || c == '\t' || c == '\n' || c == '\r' || c == '\x0b' || c == '\x0c'
}

pub fn is_ws_char(c: char) -> (b: bool)
    ensures
        b == is_ws(c),
{
    c == ' ' || c == '\t' || c == '\n' || c == '\r' || c == '\x0b' || c == '\x0c'
}

/// The tokens of `s` after `cur` has already been read as the start of a
/// token: splitting on whitespace, with no empty tokens.
pub open spec fn tokens_acc(s: Seq<char>, cur: Seq<char>) -> Seq<Seq<char>>
    decreases s.len(),
{
    if s.len() == 0 {
        if cur.len() == 0 {
            Seq::empty()
        } else {
            seq![cur]
        }
    } else if is_ws(s[0]) {
        if cur.len() == 0 {
            tokens_acc(s.drop_first(), Seq::empty())
        } else {
            seq![cur] + tokens_acc(s.drop_first(), Seq::empty())
        }
    } else {
        tokens_acc(s.drop_first(), cur.push(s[0]))
    }
}

/// The whitespace-separated tokens of `s`.
pub open spec fn spec_tokens(s: Seq<char>) -> Seq<Seq<char>> {
    tokens_acc(s, Seq::empty())
}

/// Splits `s` into its whitespace-separated tokens.
pub fn tokenize(s: &str) -> (toks: Vec<String>)
    ensures
        toks.deep_view() == spec_tokens(s@),
{
    let n = s.unicode_len();
    let mut toks: Vec<String> = Vec::new();
    let mut i: usize = 0;
    proof {
        assert(s@.skip(0) =~= s@);
        assert(toks.deep_view() =~= Seq::<Seq<char>>::empty());
        assert(toks.deep_view() + tokens_acc(s@.skip(0), Seq::<char>::empty()) =~= spec_tokens(
            s@,
        ));
    }
    while i < n
        invariant
            n as nat == s@.len(),
            i <= n,
            spec_tokens(s@) == toks.deep_view() + tokens_acc(
                s@.skip(i as int),
                Seq::<char>::empty(),
            ),
        decreases n - i,
    {
        let c = s.get_char(i);
        if is_ws_char(c) {
            proof {
                assert(s@.skip(i as int).drop_first() =~= s@.skip(i as int + 1));
            }
            i = i + 1;
        } else {
            let start = i;
            let mut j = i + 1;
            proof {
                assert(s@.skip(start as int).drop_first() =~= s@.skip(start as int + 1));
                assert(Seq::<char>::empty().push(s@[start as int]) =~= s@.subrange(
                    start as int,
                    start as int + 1,
                ));
            }
            while j < n && !is_ws_char(s.get_char(j))
                invariant
                    n as nat == s@.len(),
                    start < j <= n,
                    tokens_acc(s@.skip(start as int), Seq::<char>::empty()) == tokens_acc(
                        s@.skip(j as int),
                        s@.subrange(start as int, j as int),
                    ),
                decreases n - j,
            {
                proof {
                    assert(s@.skip(j as int).drop_first() =~= s@.skip(j as int + 1));
                    assert(s@.subrange(start as int, j as int).push(s@[j as int]) =~= s@.subrange(
                        start as int,
                        j as int + 1,
                    ));
                }
                j = j + 1;
            }
            let ghost cur = s@.subrange(start as int, j as int);
            proof {
                assert(cur.len() > 0);
                if j < n {
                    assert(s@.skip(j as int).drop_first() =~= s@.skip(j as int + 1));
                    assert(tokens_acc(s@.skip(j as int), cur) == seq![cur] + tokens_acc(
                        s@.skip(j as int),
                        Seq::<char>::empty(),
                    ));
                } else {
                    assert(s@.skip(j as int) =~= Seq::<char>::empty());
                    assert(tokens_acc(s@.skip(j as int), cur) == seq![cur] + tokens_acc(
                        s@.skip(j as int),
                        Seq::<char>::empty(),
                    ));
                }
            }
            let token = s.substring_char(start, j).to_owned();
            let ghost old_toks = toks.deep_view();
            toks.push(token);
            proof {
                assert(toks.deep_view() =~= old_toks + seq![cur]);
                assert(toks.deep_view() + tokens_acc(s@.skip(j as int), Seq::<char>::empty())
                    =~= old_toks + (seq![cur] + tokens_acc(
                    s@.skip(j as int),
                    Seq::<char>::empty(),
                )));
            }
            i = j;
        }
    }
    proof {
        assert(s@.skip(n as int) =~= Seq::<char>::empty());
        assert(toks.deep_view() + tokens_acc(s@.skip(n as int), Seq::<char>::empty())
            =~= toks.deep_view());
    }
    toks
}

/// The tokens joined back together with one space between neighbours.
pub open spec fn join_space(ts: Seq<Seq<char>>) -> Seq<char>
    decreases ts.len(),
{
    if ts.len() == 0 {
        Seq::empty()
    } else if ts.len() == 1 {
        ts[0]
    } else {
        join_space(ts.drop_last()) + seq![' '] + ts.last()
    }
}

/// Joins `words[from..]` with single spaces.
pub fn join_from(words: &Vec<String>, from: usize) -> (r: String)
    requires
        from <= words@.len(),
    ensures
        r@ == join_space(words.deep_view().skip(from as int)),
{
    let ghost all = words.deep_view();
    let mut r = String::new();
    let mut k = from;
    while k < words.len()
        invariant
            from <= k <= words@.len(),
            all == words.deep_view(),
            all.len() == words@.len(),
            r@ == join_space(all.subrange(from as int, k as int)),
        decreases words@.len() - k,
    {
        if k > from {
            r.append(" ");
            proof {
                reveal_strlit(" ");
                assert(" "@ =~= seq![' ']);
            }
        }
        r.append(words[k].as_str());
        proof {
            let sub = all.subrange(from as int, k as int + 1);
            assert(sub.drop_last() =~= all.subrange(from as int, k as int));
            assert(sub.last() == all[k as int]);
            if k == from {
                assert(r@ =~= join_space(sub));
            } else {
                assert(r@ =~= join_space(sub));
            }
        }
        k = k + 1;
    }
    proof {
        assert(all.subrange(from as int, all.len() as int) =~= all.skip(from as int));
    }
    r
}

/// The parts of `s` split on `sep` after `cur` has already been read:
/// every separator produces a boundary, so empty parts are kept.
pub open spec fn split_sep_acc(s: Seq<char>, sep: char, cur: Seq<char>) -> Seq<Seq<char>>
    decreases s.len(),
{
    if s.len() == 0 {
        seq![cur]
    } else if s[0] == sep {
        seq![cur] + split_sep_acc(s.drop_first(), sep, Seq::empty())
    } else {
        split_sep_acc(s.drop_first(), sep, cur.push(s[0]))
    }
}

/// The parts of `s` split on `sep`, as `str::split` yields them: always at
/// least one part, and empty parts kept.
pub open spec fn split_sep(s: Seq<char>, sep: char) -> Seq<Seq<char>> {
    split_sep_acc(s, sep, Seq::empty())
}

pub proof fn lemma_split_sep_acc_len(s: Seq<char>, sep: char, cur: Seq<char>)
    ensures
        split_sep_acc(s, sep, cur).len() >= 1,
    decreases s.len(),
{
    if s.len() > 0 {
        if s[0] == sep {
            lemma_split_sep_acc_len(s.drop_first(), sep, Seq::empty());
        } else {
            lemma_split_sep_acc_len(s.drop_first(), sep, cur.push(s[0]));
        }
    }
}

/// Splits `s` on the separator character, keeping empty parts.
pub fn split_sep_str(s: &str, sep: char) -> (parts: Vec<String>)
    ensures
        parts.deep_view() == split_sep(s@, sep),
        parts@.len() >= 1,
{
    let n = s.unicode_len();
    let mut parts: Vec<String> = Vec::new();
    let mut start: usize = 0;
    let mut i: usize = 0;
    proof {
        assert(s@.skip(0) =~= s@);
        assert(s@.subrange(0, 0) =~= Seq::<char>::empty());
        assert(parts.deep_view() =~= Seq::<Seq<char>>::empty());
        assert(parts.deep_view() + split_sep_acc(s@.skip(0), sep, s@.subrange(0, 0)) =~= split_sep(
            s@,
            sep,
        ));
    }
    while i < n
        invariant
            n as nat == s@.len(),
            start <= i <= n,
            split_sep(s@, sep) == parts.deep_view() + split_sep_acc(
                s@.skip(i as int),
                sep,
                s@.subrange(start as int, i as int),
            ),
        decreases n - i,
    {
        let c = s.get_char(i);
        proof {
            assert(s@.skip(i as int)[0] == s@[i as int]);
            assert(s@.skip(i as int).drop_first() =~= s@.skip(i as int + 1));
        }
        if c == sep {
            let ghost old_parts = parts.deep_view();
            let part = s.substring_char(start, i).to_owned();
            parts.push(part);
            proof {
                assert(parts.deep_view() =~= old_parts + seq![s@.subrange(start as int, i as int)]);
                assert(s@.subrange(i as int + 1, i as int + 1) =~= Seq::<char>::empty());
                assert(parts.deep_view() + split_sep_acc(
                    s@.skip(i as int + 1),
                    sep,
                    Seq::<char>::empty(),
                ) =~= old_parts + (seq![s@.subrange(start as int, i as int)] + split_sep_acc(
                    s@.skip(i as int + 1),
                    sep,
                    Seq::<char>::empty(),
                )));
            }
            i = i + 1;
            start = i;
            proof {
                assert(s@.subrange(start as int, i as int) =~= Seq::<char>::empty());
            }
        } else {
            proof {
                assert(s@.subrange(start as int, i as int).push(s@[i as int]) =~= s@.subrange(
                    start as int,
                    i as int + 1,
                ));
            }
            i = i + 1;
        }
    }
    let ghost old_parts = parts.deep_view();
    let part = s.substring_char(start, n).to_owned();
    parts.push(part);
    proof {
        assert(s@.skip(n as int) =~= Seq::<char>::empty());
        assert(split_sep_acc(s@.skip(n as int), sep, s@.subrange(start as int, n as int)) =~= seq![
            s@.subrange(start as int, n as int),
        ]);
        assert(parts.deep_view() =~= old_parts + seq![s@.subrange(start as int, n as int)]);
    }
    parts
}

/// Splitting text that holds no separator yields one part.
pub proof fn lemma_split_sep_acc_free(s: Seq<char>, sep: char, cur: Seq<char>)
    requires
        forall|i: int| 0 <= i < s.len() ==> s[i] != sep,
    ensures
        split_sep_acc(s, sep, cur) == seq![cur + s],
    decreases s.len(),
{
    if s.len() == 0 {
        assert(cur + s =~= cur);
    } else {
        lemma_split_sep_acc_free(s.drop_first(), sep, cur.push(s[0]));
        assert(cur.push(s[0]) + s.drop_first() =~= cur + s);
    }
}

/// Splitting `a + sep + b` where `a` is separator-free: `a` closes the
/// first part and `b` is split on its own.
pub proof fn lemma_split_sep_acc_concat(a: Seq<char>, b: Seq<char>, sep: char, cur: Seq<char>)
    requires
        forall|i: int| 0 <= i < a.len() ==> a[i] != sep,
    ensures
        split_sep_acc(a + seq![sep] + b, sep, cur) == seq![cur + a] + split_sep(b, sep),
    decreases a.len(),
{
    let s = a + seq![sep] + b;
    if a.len() == 0 {
        assert(s[0] == sep);
        assert(s.drop_first() =~= b);
        assert(cur + a =~= cur);
    } else {
        assert(s[0] == a[0]);
        assert(s.drop_first() =~= a.drop_first() + seq![sep] + b);
        lemma_split_sep_acc_concat(a.drop_first(), b, sep, cur.push(a[0]));
        assert(cur.push(a[0]) + a.drop_first() =~= cur + a);
    }
}

/// A line with one trailing carriage return removed.
pub open spec fn strip_cr(l: Seq<char>) -> Seq<char> {
    if l.len() > 0 && l.last() == '\r' {
        l.drop_last()
    } else {
        l
    }
}

/// The lines of `text`, as `str::lines` yields them: split at `\n`, one
/// trailing `\r` removed from every newline-terminated line, and no final
/// empty line for a trailing newline.
pub open spec fn spec_lines(text: Seq<char>) -> Seq<Seq<char>> {
    let raw = split_sep(text, '\n');
    let kept = if raw.last().len() == 0 {
        (raw.len() - 1) as nat
    } else {
        raw.len()
    };
    Seq::new(
        kept,
        |i: int|
            if i < raw.len() - 1 {
                strip_cr(raw[i])
            } else {
                raw[i]
            },
    )
}

/// One newline-terminated line at the front of a text: `lines` yields the
/// line, then the lines of the rest.
pub proof fn lemma_lines_prepend(line: Seq<char>, rest: Seq<char>)
    requires
        forall|i: int| 0 <= i < line.len() ==> line[i] != '\n' && line[i] != '\r',
    ensures
        spec_lines(line + seq!['\n'] + rest) == seq![line] + spec_lines(rest),
{
    let all = line + seq!['\n'] + rest;
    lemma_split_sep_acc_concat(line, rest, '\n', Seq::empty());
    assert(Seq::<char>::empty() + line =~= line);
    let raw_all = split_sep(all, '\n');
    let raw_rest = split_sep(rest, '\n');
    assert(raw_all == seq![line] + raw_rest);
    lemma_split_sep_acc_len(rest, '\n', Seq::<char>::empty());
    assert(raw_all.last() == raw_rest.last());
    assert(strip_cr(line) == line);
    assert(spec_lines(all).len() == seq![line].len() + spec_lines(rest).len());
    assert forall|i: int| 0 <= i < spec_lines(all).len() implies spec_lines(all)[i] == (seq![line]
        + spec_lines(rest))[i] by {
        if i == 0 {
            assert(raw_all[0] == line);
            assert(raw_all.len() >= 2);
        } else {
            assert(raw_all[i] == raw_rest[i - 1]);
        }
    }
    assert(spec_lines(all) =~= seq![line] + spec_lines(rest));
}

fn strip_cr_string(s: &str) -> (r: String)
    ensures
        r@ == strip_cr(s@),
{
    let n = s.unicode_len();
    if n > 0 && s.get_char(n - 1) == '\r' {
        proof {
            assert(s@.subrange(0, n as int - 1) =~= s@.drop_last());
        }
        s.substring_char(0, n - 1).to_owned()
    } else {
        s.to_owned()
    }
}

/// Splits `text` into its lines, as `str::lines` would.
pub fn lines(text: &str) -> (out: Vec<String>)
    ensures
        out.deep_view() == spec_lines(text@),
{
    let parts = split_sep_str(text, '\n');
    let ghost raw = split_sep(text@, '\n');
    let m = parts.len();
    let mut out: Vec<String> = Vec::new();
    let mut i: usize = 0;
    while i + 1 < m
        invariant
            1 <= m == parts@.len(),
            parts.deep_view() == raw,
            raw.len() == m,
            i <= m - 1,
            out.deep_view().len() == i,
            forall|j: int| 0 <= j < i ==> out.deep_view()[j] == strip_cr(#[trigger] raw[j]),
        decreases m - i,
    {
        let ghost old_out = out.deep_view();
        proof {
            assert(parts.deep_view()[i as int] == parts@[i as int]@);
        }
        out.push(strip_cr_string(parts[i].as_str()));
        proof {
            assert(out.deep_view() =~= old_out.push(strip_cr(raw[i as int])));
        }
        i = i + 1;
    }
    let ghost old_out = out.deep_view();
    proof {
        assert(parts.deep_view()[m - 1] == parts@[m - 1]@);
    }
    if parts[m - 1].unicode_len() > 0 {
        out.push(parts[m - 1].clone());
        proof {
            assert(out.deep_view() =~= old_out.push(raw[m - 1]));
            assert(out.deep_view() =~= spec_lines(text@));
        }
    } else {
        proof {
            assert(out.deep_view() =~= spec_lines(text@));
        }
    }
    out
}

/// Character-for-character equality of two string slices.
pub fn str_eq(a: &str, b: &str) -> (r: bool)
    ensures
        r == (a@ == b@),
{
    let oa = a.to_owned();
    let ob = b.to_owned();
    oa == ob
}

} // verus!
