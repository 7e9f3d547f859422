//! Splitting helpers for the startup configuration: a channel list read
//! one name per line, and comma-separated lists from the environment. The
//! reading itself is the caller's; these work on the text alone.

use vstd::prelude::*;

verus! {

/// The characters of each string in the sequence.
pub open spec fn views_of(v: Seq<String>) -> Seq<Seq<char>> {
    v.map_values(|t: String| t@)
}

/// The pieces of `s` between occurrences of `sep`: always one piece more
/// than there are separators, so empty pieces are kept.
pub open spec fn spec_split(s: Seq<char>, sep: char) -> Seq<Seq<char>>
    decreases s.len(),
{
    if s.len() == 0 {
        seq![Seq::<char>::empty()]
    } else if s.last() == sep {
        spec_split(s.drop_last(), sep).push(Seq::<char>::empty())
    } else {
        let r = spec_split(s.drop_last(), sep);
        r.update(r.len() - 1, r.last().push(s.last()))
    }
}

/// Splits `s` at every occurrence of `sep`, keeping empty pieces.
pub fn split_on(s: &str, sep: char) -> (r: Vec<String>)
    ensures
        views_of(r@) == spec_split(s@, sep),
{
    let n = s.unicode_len();
    let mut r: Vec<String> = Vec::new();
    let mut start: usize = 0;
    let mut i: usize = 0;
    proof {
        assert(s@.take(0) =~= Seq::<char>::empty());
        assert(s@.subrange(0, 0) =~= Seq::<char>::empty());
        assert(views_of(r@).push(s@.subrange(0, 0)) =~= spec_split(s@.take(0), sep));
    }
    while i < n
        invariant
            start <= i <= n,
            n == s@.len(),
            views_of(r@).push(s@.subrange(start as int, i as int)) == spec_split(
                s@.take(i as int),
                sep,
            ),
        decreases n - i,
    {
        proof {
            assert(s@.take(i + 1).drop_last() =~= s@.take(i as int));
            assert(s@.take(i + 1).last() == s@[i as int]);
        }
        if s.get_char(i) == sep {
            let token = s.substring_char(start, i).to_owned();
            proof {
                let done = views_of(r@);
                let cur = s@.subrange(start as int, i as int);
                assert(views_of(r@.push(token)) =~= done.push(cur));
                assert(s@.subrange(i + 1, i + 1) =~= Seq::<char>::empty());
                assert(views_of(r@.push(token)).push(s@.subrange(i + 1, i + 1)) =~= spec_split(
                    s@.take(i as int),
                    sep,
                ).push(Seq::<char>::empty()));
            }
            r.push(token);
            start = i + 1;
        } else {
            proof {
                let done = views_of(r@);
                let cur = s@.subrange(start as int, i as int);
                let q = spec_split(s@.take(i as int), sep);
                assert(q == done.push(cur));
                assert(q.update(q.len() - 1, q.last().push(s@[i as int])) =~= done.push(
                    cur.push(s@[i as int]),
                ));
                assert(s@.subrange(start as int, i + 1) =~= cur.push(s@[i as int]));
            }
        }
        i += 1;
    }
    let token = s.substring_char(start, n).to_owned();
    proof {
        assert(s@.take(n as int) =~= s@);
        assert(views_of(r@.push(token)) =~= views_of(r@).push(s@.subrange(start as int, n as int)));
    }
    r.push(token);
    r
}

/// The lines of `s`: the pieces between newline characters, with the empty
/// piece after a trailing newline dropped, and no lines at all for empty
/// text. A newline ends a line whether it stands alone or closes a
/// carriage-return-newline pair, so a piece the split leaves ending in a
/// carriage return loses it; a carriage return with no newline after it is
/// ordinary text and stays.
pub open spec fn spec_lines(s: Seq<char>) -> Seq<Seq<char>> {
    if s.len() == 0 {
        Seq::<Seq<char>>::empty()
    } else if s.last() == '\n' {
        let parts = spec_split(s.drop_last(), '\n');
        Seq::new(parts.len(), |j: int| strip_cr(parts[j]))
    } else {
        let parts = spec_split(s, '\n');
        Seq::new(
            parts.len(),
            |j: int|
                if j == parts.len() - 1 {
                    parts[j]
                } else {
                    strip_cr(parts[j])
                },
        )
    }
}

/// A piece with the carriage return that a carriage-return-newline line
/// ending leaves behind removed.
pub open spec fn strip_cr(piece: Seq<char>) -> Seq<char> {
    if piece.len() > 0 && piece.last() == '\r' {
        piece.drop_last()
    } else {
        piece
    }
}

/// Removes the carriage return a carriage-return-newline ending leaves at
/// the end of a piece.
fn strip_trailing_cr(p: &String) -> (r: String)
    ensures
        r@ == strip_cr(p@),
{
    let n = p.as_str().unicode_len();
    if n > 0 && p.as_str().get_char(n - 1) == '\r' {
        let r = p.as_str().substring_char(0, n - 1).to_owned();
        proof {
            assert(r@ =~= p@.drop_last());
        }
        r
    } else {
        p.clone()
    }
}

/// Splits configuration text into lines (one channel or name per line).
pub fn parse_lines(s: &str) -> (r: Vec<String>)
    ensures
        views_of(r@) == spec_lines(s@),
{
    let n = s.unicode_len();
    if n == 0 {
        let r: Vec<String> = Vec::new();
        proof {
            assert(views_of(r@) =~= Seq::<Seq<char>>::empty());
        }
        return r;
    }
    let trailing = s.get_char(n - 1) == '\n';
    proof {
        assert(trailing == (s@.last() == '\n'));
    }
    let parts = if trailing {
        let body = s.substring_char(0, n - 1);
        proof {
            assert(body@ =~= s@.drop_last());
        }
        split_on(body, '\n')
    } else {
        split_on(s, '\n')
    };
    // Every piece but an unterminated final one ended at a newline: shed
    // the carriage return such an ending may have left on it.
    let keep_last = !trailing;
    let mut out: Vec<String> = Vec::new();
    let mut i: usize = 0;
    while i < parts.len()
        invariant
            i <= parts@.len(),
            out@.len() == i,
            forall|j: int|
                0 <= j < i ==> out@[j]@ == (if keep_last && j == parts@.len() - 1 {
                    parts@[j]@
                } else {
                    strip_cr(parts@[j]@)
                }),
        decreases parts@.len() - i,
    {
        if keep_last && i + 1 == parts.len() {
            out.push(parts[i].clone());
        } else {
            let stripped = strip_trailing_cr(&parts[i]);
            out.push(stripped);
        }
        i += 1;
    }
    proof {
        let pv = views_of(parts@);
        if trailing {
            let q = spec_split(s@.drop_last(), '\n');
            assert(pv == q);
            assert(out@.len() == parts@.len() && pv.len() == parts@.len());
            assert(views_of(out@).len() == out@.len());
            assert(spec_lines(s@).len() == q.len());
            assert forall|j: int| 0 <= j < out@.len() implies #[trigger] views_of(out@)[j]
                == spec_lines(s@)[j] by {
                assert(views_of(out@)[j] == out@[j]@);
                assert(spec_lines(s@)[j] == strip_cr(q[j]));
                assert(q[j] == pv[j] && pv[j] == parts@[j]@);
            }
            assert(views_of(out@) =~= spec_lines(s@));
        } else {
            let q = spec_split(s@, '\n');
            assert(pv == q);
            assert(out@.len() == parts@.len() && pv.len() == parts@.len());
            assert(views_of(out@).len() == out@.len());
            assert(spec_lines(s@).len() == q.len());
            assert forall|j: int| 0 <= j < out@.len() implies #[trigger] views_of(out@)[j]
                == spec_lines(s@)[j] by {
                assert(views_of(out@)[j] == out@[j]@);
                assert(q[j] == pv[j] && pv[j] == parts@[j]@);
                if j == q.len() - 1 {
                    assert(spec_lines(s@)[j] == q.last());
                } else {
                    assert(spec_lines(s@)[j] == strip_cr(q[j]));
                }
            }
            assert(views_of(out@) =~= spec_lines(s@));
        }
    }
    out
}

/// Splits a comma-separated environment value into its entries, keeping
/// empty ones.
pub fn parse_list(s: &str) -> (r: Vec<String>)
    ensures
        views_of(r@) == spec_split(s@, ','),
{
    split_on(s, ',')
}

} // verus!
