//! The bulk-load line format: one quad per line, tokens separated by
//! whitespace, terminated by a lone `.` token; whatever follows the
//! terminator is ignored. Reading the compressed stream is the caller's
//! business; this module turns one line into a quad.

use vstd::prelude::*;
use vstd::string::StrSliceExecFns;
use crate::quad::{Quad, QuadView};
use crate::value::{Value, ValueView, spec_from_rdf_string};

verus! {

/// The whitespace that separates tokens: the Unicode white-space
/// characters, the set std's whitespace splitting goes by.
pub open spec fn spec_is_ws(c: char) -> bool {
    let u = c as u32;
    ||| (0x9 <= u && u <= 0xd)
    ||| u == 0x20
    ||| u == 0x85
    ||| u == 0xa0
    ||| u == 0x1680
    ||| (0x2000 <= u && u <= 0x200a)
    ||| u == 0x2028
    ||| u == 0x2029
    ||| u == 0x202f
    ||| u == 0x205f
    ||| u == 0x3000
}

/// The whitespace that separates tokens: the Unicode white-space
/// characters, the set std's whitespace splitting goes by.
pub fn is_ws(c: char) -> (r: bool)
    ensures
        r == spec_is_ws(c),
{
    let u = c as u32;
    (0x9 <= u && u <= 0xd) || u == 0x20 || u == 0x85 || u == 0xa0 || u == 0x1680 || (0x2000 <= u
        && u <= 0x200a) || u == 0x2028 || u == 0x2029 || u == 0x202f || u == 0x205f || u == 0x3000
}

/// The leading token of a text: its characters up to the first whitespace.
pub open spec fn spec_first_token(s: Seq<char>) -> Seq<char>
    decreases s.len(),
{
    if s.len() == 0 || spec_is_ws(s[0]) {
        Seq::empty()
    } else {
        seq![s[0]] + spec_first_token(s.drop_first())
    }
}

/// The whitespace-separated tokens of a text, in order.
pub open spec fn spec_tokens(s: Seq<char>) -> Seq<Seq<char>>
    decreases s.len(),
        via spec_tokens_decreases
{
    if s.len() == 0 {
        Seq::empty()
    } else if spec_is_ws(s[0]) {
        spec_tokens(s.drop_first())
    } else {
        seq![spec_first_token(s)] + spec_tokens(s.skip(spec_first_token(s).len() as int))
    }
}

/// The leading token is never longer than the text.
proof fn lemma_first_token_len(s: Seq<char>)
    ensures
        spec_first_token(s).len() <= s.len(),
    decreases s.len(),
{
    if s.len() > 0 && !spec_is_ws(s[0]) {
        lemma_first_token_len(s.drop_first());
    }
}

#[via_fn]
proof fn spec_tokens_decreases(s: Seq<char>) {
    if s.len() > 0 && !spec_is_ws(s[0]) {
        assert(spec_first_token(s) == seq![s[0]] + spec_first_token(s.drop_first()));
        assert(spec_first_token(s).len() >= 1);
        lemma_first_token_len(s);
    }
}

/// The tokens before the terminating `.`, or all of them when no
/// terminator appears.
pub open spec fn spec_until_dot(ts: Seq<Seq<char>>) -> Seq<Seq<char>>
    decreases ts.len(),
{
    if ts.len() == 0 {
        Seq::empty()
    } else if ts[0] =~= seq!['.'] {
        Seq::empty()
    } else {
        seq![ts[0]] + spec_until_dot(ts.drop_first())
    }
}

/// The quad a line denotes: its first four tokens before the terminator,
/// each read by the token rule, with missing tokens absent.
pub open spec fn spec_quad_from_line(s: Seq<char>) -> QuadView {
    let ts = spec_until_dot(spec_tokens(s));
    QuadView {
        subject: if ts.len() > 0 {
            spec_from_rdf_string(ts[0])
        } else {
            ValueView::Undefined
        },
        predicate: if ts.len() > 1 {
            spec_from_rdf_string(ts[1])
        } else {
            ValueView::Undefined
        },
        object: if ts.len() > 2 {
            spec_from_rdf_string(ts[2])
        } else {
            ValueView::Undefined
        },
        label: if ts.len() > 3 {
            spec_from_rdf_string(ts[3])
        } else {
            ValueView::Undefined
        },
    }
}

/// Splits a line into its whitespace-separated tokens.
fn tokenize(line: &str) -> (r: Vec<String>)
    ensures
        r@.len() == spec_tokens(line@).len(),
        forall|i: int| 0 <= i < r@.len() ==> (#[trigger] r@[i])@ == spec_tokens(line@)[i],
{
    let n = line.unicode_len();
    let mut out: Vec<String> = Vec::new();
    let mut i: usize = 0;
    proof {
        assert(line@.skip(0) =~= line@);
    }
    while i < n
        invariant
            i <= n,
            n == line@.len(),
            spec_tokens(line@) =~= out@.map_values(|t: String| t@) + spec_tokens(
                line@.skip(i as int),
            ),
        decreases n - i,
    {
        let c = line.get_char(i);
        proof {
            assert(line@.skip(i as int)[0] == line@[i as int]);
        }
        if is_ws(c) {
            proof {
                assert(line@.skip(i as int).drop_first() =~= line@.skip(i as int + 1));
            }
            i += 1;
        } else {
            // find the token's end
            let start = i;
            let mut j: usize = i;
            while j < n && !is_ws_at(line, j)
                invariant
                    start <= j <= n,
                    n == line@.len(),
                    forall|k: int| start <= k < j ==> !spec_is_ws(line@[k]),
                decreases n - j,
            {
                j += 1;
            }
            proof {
                assert(j < n ==> spec_is_ws(line@[j as int]));
                lemma_first_token_span(line@.skip(start as int), (j - start) as int);
                assert(line@.skip(start as int).take((j - start) as int) =~= line@.subrange(
                    start as int,
                    j as int,
                ));
                assert(line@.skip(start as int).skip((j - start) as int) =~= line@.skip(j as int));
            }
            let tok = line.substring_char(start, j).to_owned();
            out.push(tok);
            proof {
                assert(out@.map_values(|t: String| t@) =~= out@.drop_last().map_values(
                    |t: String| t@,
                ).push(line@.subrange(start as int, j as int)));
                assert(spec_tokens(line@) =~= out@.map_values(|t: String| t@) + spec_tokens(
                    line@.skip(j as int),
                ));
            }
            i = j;
        }
    }
    proof {
        assert(line@.skip(n as int) =~= Seq::<char>::empty());
        assert(out@.map_values(|t: String| t@) + spec_tokens(Seq::<char>::empty())
            =~= out@.map_values(|t: String| t@));
        assert(forall|k: int|
            0 <= k < out@.len() ==> (#[trigger] out@[k])@ == out@.map_values(|t: String| t@)[k]);
    }
    out
}

/// The leading token of a text whose first `k` characters are not
/// whitespace and whose character `k`, if any, is: exactly those `k`
/// characters.
proof fn lemma_first_token_span(s: Seq<char>, k: int)
    requires
        0 <= k <= s.len(),
        forall|j: int| 0 <= j < k ==> !spec_is_ws(s[j]),
        k < s.len() ==> spec_is_ws(s[k]),
    ensures
        spec_first_token(s) == s.take(k),
    decreases k,
{
    if k == 0 {
        assert(spec_first_token(s) =~= s.take(0));
    } else {
        lemma_first_token_span(s.drop_first(), k - 1);
        assert(s.drop_first().take(k - 1) =~= s.take(k).drop_first());
        assert(spec_first_token(s) =~= seq![s[0]] + s.take(k).drop_first());
        assert(spec_first_token(s) =~= s.take(k));
    }
}

/// Whether the character at a position is whitespace.
fn is_ws_at(line: &str, j: usize) -> (r: bool)
    requires
        j < line@.len(),
    ensures
        r == spec_is_ws(line@[j as int]),
{
    is_ws(line.get_char(j))
}

/// Whether a token is the terminating `.`.
fn is_dot(tok: &String) -> (r: bool)
    ensures
        r == (tok@ =~= seq!['.']),
{
    let result = tok.unicode_len() == 1 && tok.as_str().get_char(0) == '.';
    proof {
        if result {
            assert(tok@ =~= seq!['.']);
        }
    }
    result
}

/// Reads one line of the bulk-load format into a quad: the first four
/// tokens before a lone `.` terminator, each read by the token rule, with
/// missing directions absent.
pub fn quad_from_line(line: &str) -> (r: Quad)
    ensures
        r@ == spec_quad_from_line(line@),
{
    let tokens = tokenize(line);
    let ghost all = spec_tokens(line@);
    let ghost kept = spec_until_dot(all);
    let mut vals: Vec<Value> = Vec::new();
    let mut i: usize = 0;
    let mut stopped = false;
    proof {
        assert(all.skip(0) =~= all);
        assert(all.take(0) =~= Seq::<Seq<char>>::empty());
        assert(kept =~= all.take(0) + spec_until_dot(all.skip(0)));
    }
    while i < tokens.len() && !stopped && vals.len() < 4
        invariant
            i <= tokens@.len(),
            tokens@.len() == all.len(),
            all == spec_tokens(line@),
            kept == spec_until_dot(all),
            forall|k: int| 0 <= k < all.len() ==> (#[trigger] tokens@[k])@ == all[k],
            vals@.len() <= 4,
            forall|k: int|
                0 <= k < vals@.len() ==> (#[trigger] vals@[k])@ == spec_from_rdf_string(all[k])
                    && kept[k] == all[k],
            !stopped ==> vals@.len() == i && kept =~= all.take(i as int) + spec_until_dot(
                all.skip(i as int),
            ),
            stopped ==> vals@.len() == kept.len(),
        decreases tokens@.len() - i,
    {
        proof {
            assert(all.skip(i as int)[0] == all[i as int]);
        }
        if is_dot(&tokens[i]) {
            stopped = true;
            proof {
                assert(spec_until_dot(all.skip(i as int)) =~= Seq::<Seq<char>>::empty());
                assert(kept =~= all.take(i as int));
            }
            i += 1;
        } else {
            proof {
                assert(all.skip(i as int).drop_first() =~= all.skip(i as int + 1));
                assert(spec_until_dot(all.skip(i as int)) =~= seq![all[i as int]] + spec_until_dot(
                    all.skip(i as int + 1),
                ));
                assert(kept[i as int] == all[i as int]);
                assert(all.take(i as int).push(all[i as int]) =~= all.take(i as int + 1));
                assert(kept =~= all.take(i as int + 1) + spec_until_dot(all.skip(i as int + 1)));
            }
            let v = Value::from_rdf_string(tokens[i].as_str());
            vals.push(v);
            i += 1;
        }
    }
    proof {
        if !stopped && i == tokens@.len() {
            assert(all.skip(i as int) =~= Seq::<Seq<char>>::empty());
            assert(spec_until_dot(all.skip(i as int)) =~= Seq::<Seq<char>>::empty());
            assert(kept =~= all.take(i as int));
            assert(vals@.len() == kept.len());
        }
        assert(vals@.len() == kept.len() || (vals@.len() == 4 && kept.len() >= 4)) by {
            if !stopped && i < tokens@.len() {
                assert(vals@.len() == 4);
                assert(kept.len() >= i);
            }
        }
        assert(forall|k: int|
            0 <= k < vals@.len() ==> (#[trigger] vals@[k])@ == spec_from_rdf_string(kept[k]));
    }
    let mut q = Quad::new_undefined_vals();
    if vals.len() > 0 {
        q.subject = vals[0].clone();
    }
    if vals.len() > 1 {
        q.predicate = vals[1].clone();
    }
    if vals.len() > 2 {
        q.object = vals[2].clone();
    }
    if vals.len() > 3 {
        q.label = vals[3].clone();
    }
    q
}

} // verus!
