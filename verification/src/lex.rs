//! Byte-level lexing for the line-oriented OBJ format: splitting a line
//! into whitespace-separated tokens and a face token into `/`-separated
//! parts, with spec-level models of both.
use vstd::prelude::*;

verus! {

/// ASCII whitespace, the separators between the tokens of a line.
pub open spec fn is_space(b: u8) -> bool {
    b == 32 || (9 <= b && b <= 13)
}

/// The views of a sequence of byte vectors, element by element.
pub open spec fn views_of(vs: Seq<Vec<u8>>) -> Seq<Seq<u8>> {
    Seq::new(vs.len(), |i: int| vs[i]@)
}

/// Whitespace tokenization with the partial token `cur` carried along:
/// spaces close `cur` (dropped when empty), other bytes extend it.
pub open spec fn tokens_acc(s: Seq<u8>, cur: Seq<u8>) -> Seq<Seq<u8>>
    decreases s.len(),
{
    if s.len() == 0 {
        if cur.len() == 0 {
            Seq::empty()
        } else {
            seq![cur]
        }
    } else if is_space(s[0]) {
        if cur.len() == 0 {
            tokens_acc(s.drop_first(), Seq::empty())
        } else {
            seq![cur] + tokens_acc(s.drop_first(), Seq::empty())
        }
    } else {
        tokens_acc(s.drop_first(), cur.push(s[0]))
    }
}

/// The whitespace-separated tokens of `s`, in order, without empties.
pub open spec fn spec_tokens(s: Seq<u8>) -> Seq<Seq<u8>> {
    tokens_acc(s, Seq::empty())
}

/// Splitting on a delimiter byte with the partial part `cur` carried
/// along; empty parts are kept, so the result always has one part more
/// than `s` has delimiters.
pub open spec fn split_acc(s: Seq<u8>, d: u8, cur: Seq<u8>) -> Seq<Seq<u8>>
    decreases s.len(),
{
    if s.len() == 0 {
        seq![cur]
    } else if s[0] == d {
        seq![cur] + split_acc(s.drop_first(), d, Seq::empty())
    } else {
        split_acc(s.drop_first(), d, cur.push(s[0]))
    }
}

/// The parts of `s` between occurrences of `d`, empties kept.
pub open spec fn spec_split(s: Seq<u8>, d: u8) -> Seq<Seq<u8>> {
    split_acc(s, d, Seq::empty())
}

/// Splits `s` into its whitespace-separated tokens.
pub fn split_ws(s: &[u8]) -> (r: Vec<Vec<u8>>)
    ensures
        views_of(r@) == spec_tokens(s@),
{
    let mut out: Vec<Vec<u8>> = Vec::new();
    let mut cur: Vec<u8> = Vec::new();
    let mut i: usize = 0;
    proof {
        assert(s@.skip(0) =~= s@);
        assert(cur@ =~= Seq::<u8>::empty());
        assert(views_of(out@) + tokens_acc(s@, Seq::empty()) =~= tokens_acc(s@, Seq::empty()));
    }
    while i < s.len()
        invariant
            i <= s@.len(),
            spec_tokens(s@) == views_of(out@) + tokens_acc(s@.skip(i as int), cur@),
        decreases s@.len() - i,
    {
        let ghost prev_rest = s@.skip(i as int);
        assert(prev_rest[0] == s@[i as int]);
        assert(prev_rest.drop_first() =~= s@.skip(i as int + 1));
        let b = s[i];
        if b == 32 || (9 <= b && b <= 13) {
            if cur.len() > 0 {
                let ghost old_out = out@;
                let ghost old_cur = cur@;
                out.push(cur);
                cur = Vec::new();
                proof {
                    assert(views_of(out@) =~= views_of(old_out).push(old_cur));
                    assert(tokens_acc(prev_rest, old_cur) == seq![old_cur] + tokens_acc(
                        s@.skip(i as int + 1),
                        Seq::empty(),
                    ));
                    assert(views_of(out@) + tokens_acc(s@.skip(i as int + 1), cur@)
                        =~= views_of(old_out) + (seq![old_cur] + tokens_acc(
                        s@.skip(i as int + 1),
                        Seq::empty(),
                    )));
                }
            } else {
                proof {
                    assert(cur@ =~= Seq::<u8>::empty());
                    assert(tokens_acc(prev_rest, cur@) == tokens_acc(
                        s@.skip(i as int + 1),
                        Seq::empty(),
                    ));
                }
            }
        } else {
            let ghost old_cur = cur@;
            cur.push(b);
            proof {
                assert(tokens_acc(prev_rest, old_cur) == tokens_acc(
                    s@.skip(i as int + 1),
                    old_cur.push(s@[i as int]),
                ));
            }
        }
        i = i + 1;
    }
    assert(s@.skip(i as int) =~= Seq::<u8>::empty());
    if cur.len() > 0 {
        let ghost old_out = out@;
        let ghost old_cur = cur@;
        out.push(cur);
        proof {
            assert(views_of(out@) =~= views_of(old_out).push(old_cur));
            assert(views_of(out@) =~= views_of(old_out) + seq![old_cur]);
        }
    }
    assert(views_of(out@) =~= views_of(out@) + Seq::<Seq<u8>>::empty());
    out
}

/// Splits `s` on the delimiter `d`, keeping empty parts.
pub fn split_by(s: &[u8], d: u8) -> (r: Vec<Vec<u8>>)
    ensures
        views_of(r@) == spec_split(s@, d),
        r@.len() >= 1,
{
    let mut out: Vec<Vec<u8>> = Vec::new();
    let mut cur: Vec<u8> = Vec::new();
    let mut i: usize = 0;
    proof {
        assert(s@.skip(0) =~= s@);
        assert(cur@ =~= Seq::<u8>::empty());
        assert(views_of(out@) + split_acc(s@, d, Seq::empty()) =~= split_acc(s@, d, Seq::empty()));
    }
    while i < s.len()
        invariant
            i <= s@.len(),
            spec_split(s@, d) == views_of(out@) + split_acc(s@.skip(i as int), d, cur@),
        decreases s@.len() - i,
    {
        let ghost prev_rest = s@.skip(i as int);
        assert(prev_rest[0] == s@[i as int]);
        assert(prev_rest.drop_first() =~= s@.skip(i as int + 1));
        let b = s[i];
        if b == d {
            let ghost old_out = out@;
            let ghost old_cur = cur@;
            out.push(cur);
            cur = Vec::new();
            proof {
                assert(views_of(out@) =~= views_of(old_out).push(old_cur));
                assert(split_acc(prev_rest, d, old_cur) == seq![old_cur] + split_acc(
                    s@.skip(i as int + 1),
                    d,
                    Seq::empty(),
                ));
                assert(views_of(out@) + split_acc(s@.skip(i as int + 1), d, cur@)
                    =~= views_of(old_out) + (seq![old_cur] + split_acc(
                    s@.skip(i as int + 1),
                    d,
                    Seq::empty(),
                )));
            }
        } else {
            let ghost old_cur = cur@;
            cur.push(b);
            proof {
                assert(split_acc(prev_rest, d, old_cur) == split_acc(
                    s@.skip(i as int + 1),
                    d,
                    old_cur.push(s@[i as int]),
                ));
            }
        }
        i = i + 1;
    }
    assert(s@.skip(i as int) =~= Seq::<u8>::empty());
    let ghost old_out = out@;
    let ghost old_cur = cur@;
    out.push(cur);
    proof {
        assert(views_of(out@) =~= views_of(old_out).push(old_cur));
        assert(views_of(out@) =~= views_of(old_out) + seq![old_cur]);
    }
    out
}

} // verus!
