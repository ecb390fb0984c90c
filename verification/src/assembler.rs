//! The passphrase assembler: draw the words, capitalize a random set of
//! distinct word positions, then insert random digit and symbol tokens at
//! random positions.

use vstd::prelude::*;
use vstd::seq_lib::*;

use crate::config::Config;
use crate::random::{draw_at, next_after, RandomProvider};
use crate::source::{scripted_index, scripted_next, PhraseError, WordSource};
use crate::text::{capitalize, char_token, spec_capitalize, views_of};

verus! {

/// The digit alphabet: the ten decimal digits.
pub open spec fn digit_chars() -> Seq<char> {
    seq!['0', '1', '2', '3', '4', '5', '6', '7', '8', '9']
}

/// The symbol alphabet: exactly these twelve characters.
pub open spec fn symbol_chars() -> Seq<char> {
    seq!['~', '!', '@', '#', '$', '%', '^', '&', '*', '.', ':', ';']
}

/// The digit alphabet as a vector.
fn digit_alphabet() -> (r: Vec<char>)
    ensures
        r@ == digit_chars(),
{
    let mut r: Vec<char> = Vec::new();
    r.push('0');
    r.push('1');
    r.push('2');
    r.push('3');
    r.push('4');
    r.push('5');
    r.push('6');
    r.push('7');
    r.push('8');
    r.push('9');
    proof {
        assert(r@ =~= digit_chars());
    }
    r
}

/// The symbol alphabet as a vector.
fn symbol_alphabet() -> (r: Vec<char>)
    ensures
        r@ == symbol_chars(),
{
    let mut r: Vec<char> = Vec::new();
    r.push('~');
    r.push('!');
    r.push('@');
    r.push('#');
    r.push('$');
    r.push('%');
    r.push('^');
    r.push('&');
    r.push('*');
    r.push('.');
    r.push(':');
    r.push(';');
    proof {
        assert(r@ =~= symbol_chars());
    }
    r
}

/// Whether `w` is one of the dictionary's entries.
pub open spec fn from_dictionary(dict: Seq<String>, w: String) -> bool {
    exists|j: int| 0 <= j < dict.len() && w == dict[j]
}

/// The words a scripted source hands out for `count` draws starting at
/// position `next0`, and the source position after them.
pub open spec fn scripted_words(dict: Seq<Seq<char>>, next0: int, count: int) -> (Seq<Seq<char>>, int)
    decreases count,
{
    if count <= 0 || dict.len() == 0 {
        (Seq::empty(), next0)
    } else {
        let prev = scripted_words(dict, next0, count - 1);
        let k = scripted_index(dict.len() as int, prev.1);
        (prev.0.push(dict[k]), scripted_next(dict.len() as int, prev.1))
    }
}

/// Draw `count` words from the source, in draw order. Fails exactly when at
/// least one word is needed and the word list is empty, leaving source and
/// provider untouched.
pub fn select_words(count: usize, src: &mut WordSource, rng: &mut RandomProvider) -> (r: Result<
    Vec<String>,
    PhraseError,
>)
    ensures
        final(src).words == old(src).words,
        final(src).scripted == old(src).scripted,
        final(rng).script == old(rng).script,
        (r is Ok) == !(count > 0 && old(src).words@.len() == 0),
        r is Err ==> {
            &&& r->Err_0 == PhraseError::EmptyDictionary
            &&& *final(src) == *old(src)
            &&& *final(rng) == *old(rng)
        },
        r matches Ok(ws) ==> {
            &&& ws@.len() == count
            &&& forall|t: int|
                0 <= t < count ==> #[trigger] from_dictionary(old(src).words@, ws@[t])
            &&& old(src).scripted ==> {
                &&& views_of(ws@) == scripted_words(
                    views_of(old(src).words@),
                    old(src).next as int,
                    count as int,
                ).0
                &&& final(src).next as int == scripted_words(
                    views_of(old(src).words@),
                    old(src).next as int,
                    count as int,
                ).1
                &&& *final(rng) == *old(rng)
            }
            &&& !old(src).scripted ==> final(src).next == old(src).next
        },
{
    let ghost dict = views_of(old(src).words@);
    let ghost next0 = old(src).next as int;
    let mut ws: Vec<String> = Vec::new();
    let mut i: usize = 0;
    proof {
        assert(views_of(ws@) =~= scripted_words(dict, next0, 0).0);
    }
    while i < count
        invariant
            i <= count,
            src.words == old(src).words,
            src.scripted == old(src).scripted,
            rng.script == old(rng).script,
            dict == views_of(old(src).words@),
            next0 == old(src).next as int,
            ws@.len() == i,
            i > 0 ==> old(src).words@.len() > 0,
            i == 0 ==> *src == *old(src) && *rng == *old(rng),
            forall|t: int|
                0 <= t < i ==> #[trigger] from_dictionary(old(src).words@, ws@[t]),
            old(src).scripted ==> {
                &&& views_of(ws@) == scripted_words(dict, next0, i as int).0
                &&& src.next as int == scripted_words(dict, next0, i as int).1
                &&& *rng == *old(rng)
            },
            !old(src).scripted ==> src.next == old(src).next,
        decreases count - i,
    {
        let ghost pre = ws@;
        match src.draw_word(rng) {
            Ok(w) => {
                ws.push(w);
                proof {
                    assert(views_of(ws@) =~= views_of(pre).push(w@));
                    if old(src).scripted {
                        assert(views_of(ws@) =~= scripted_words(dict, next0, i + 1).0);
                    }
                }
                i = i + 1;
            },
            Err(e) => {
                return Err(e);
            },
        }
    }
    Ok(ws)
}

/// The pool of candidate positions after `steps` partial shuffle steps with
/// scripted draws, and the script position after them: step `s` swaps the
/// pool entry at `s` with one drawn from the entries at `s` and above.
pub open spec fn shuffle_state(n: int, vals: Seq<u64>, next0: int, steps: int) -> (Seq<usize>, int)
    recommends
        0 <= steps <= n,
    decreases steps,
{
    if steps <= 0 {
        (Seq::new(if n >= 0 { n as nat } else { 0 }, |j: int| j as usize), next0)
    } else {
        let prev = shuffle_state(n, vals, next0, steps - 1);
        let off = draw_at(vals, prev.1, n - (steps - 1));
        let j = steps - 1 + off;
        (
            prev.0.update(steps - 1, prev.0[j]).update(j, prev.0[steps - 1]),
            next_after(vals, prev.1),
        )
    }
}

/// The positions a scripted provider selects when sampling `k` distinct
/// positions out of `n`, and the script position after the `k` draws.
pub open spec fn scripted_positions(n: int, vals: Seq<u64>, next0: int, k: int) -> (Seq<usize>, int)
    recommends
        0 <= k <= n,
{
    let s = shuffle_state(n, vals, next0, k);
    (s.0.take(k), s.1)
}

/// Sample `k` distinct positions from `[0, n)`, by a partial shuffle of the
/// full candidate pool: each draw is uniform over the positions not yet
/// selected, so every size-`k` subset is equally likely.
pub fn sample_positions(k: usize, n: usize, rng: &mut RandomProvider) -> (r: Vec<usize>)
    requires
        k <= n,
    ensures
        r@.len() == k,
        r@.no_duplicates(),
        forall|i: int| 0 <= i < k ==> #[trigger] r@[i] < n,
        final(rng).script == old(rng).script,
        old(rng).script is None ==> *final(rng) == *old(rng),
        old(rng).script matches Some(vals) ==> {
            &&& r@ == scripted_positions(n as int, vals@, old(rng).next as int, k as int).0
            &&& final(rng).next as int == scripted_positions(
                n as int,
                vals@,
                old(rng).next as int,
                k as int,
            ).1
        },
{
    let mut pool: Vec<usize> = Vec::new();
    let mut t: usize = 0;
    while t < n
        invariant
            t <= n,
            pool@.len() == t,
            forall|j: int| 0 <= j < t ==> #[trigger] pool@[j] == j,
        decreases n - t,
    {
        pool.push(t);
        t = t + 1;
    }
    proof {
        assert(pool@ =~= shuffle_state(n as int, Seq::empty(), 0, 0).0);
        if old(rng).script is Some {
            let vals = old(rng).script->0;
            assert(pool@ =~= shuffle_state(n as int, vals@, old(rng).next as int, 0).0);
        }
    }
    let mut i: usize = 0;
    while i < k
        invariant
            i <= k,
            k <= n,
            pool@.len() == n,
            pool@.no_duplicates(),
            forall|j: int| 0 <= j < n ==> #[trigger] pool@[j] < n,
            rng.script == old(rng).script,
            old(rng).script is None ==> *rng == *old(rng),
            old(rng).script matches Some(vals) ==> {
                &&& pool@ == shuffle_state(n as int, vals@, old(rng).next as int, i as int).0
                &&& rng.next as int == shuffle_state(n as int, vals@, old(rng).next as int, i as int).1
            },
        decreases k - i,
    {
        let off = rng.uniform_below(n - i);
        let j = i + off;
        let a = pool[i];
        let b = pool[j];
        let ghost pre = pool@;
        pool[i] = b;
        pool[j] = a;
        proof {
            assert(pool@ =~= pre.update(i as int, b).update(j as int, a));
            assert forall|p: int, q: int| 0 <= p < pool@.len() && 0 <= q < pool@.len() && p != q
                implies pool@[p] != pool@[q] by {
                let sp = if p == i { j as int } else if p == j { i as int } else { p };
                let sq = if q == i { j as int } else if q == j { i as int } else { q };
                assert(pool@[p] == pre[sp]);
                assert(pool@[q] == pre[sq]);
                assert(sp != sq);
            }
            assert(pool@.no_duplicates());
            if old(rng).script is Some {
                let vals = old(rng).script->0;
                assert(pool@ =~= shuffle_state(n as int, vals@, old(rng).next as int, i + 1).0);
            }
        }
        i = i + 1;
    }
    let ghost full = pool@;
    pool.truncate(k);
    proof {
        assert(pool@ =~= full.take(k as int));
        assert forall|p: int, q: int| 0 <= p < pool@.len() && 0 <= q < pool@.len() && p != q
            implies pool@[p] != pool@[q] by {
            assert(full[p] != full[q]);
        }
        assert(pool@.no_duplicates());
    }
    pool
}

/// The tokens after capitalizing the listed positions, in list order.
pub open spec fn cap_apply(ws: Seq<Seq<char>>, ps: Seq<usize>) -> Seq<Seq<char>>
    decreases ps.len(),
{
    if ps.len() == 0 {
        ws
    } else {
        let prev = cap_apply(ws, ps.drop_last());
        prev.update(ps.last() as int, spec_capitalize(prev[ps.last() as int]))
    }
}

/// Capitalizing a list of distinct positions capitalizes exactly those
/// positions, once each, and leaves every other token unchanged.
pub proof fn lemma_cap_apply_pointwise(ws: Seq<Seq<char>>, ps: Seq<usize>)
    requires
        ws.len() <= usize::MAX,
        ps.no_duplicates(),
        forall|i: int| 0 <= i < ps.len() ==> (#[trigger] ps[i]) < ws.len(),
    ensures
        cap_apply(ws, ps).len() == ws.len(),
        forall|j: int|
            0 <= j < ws.len() ==> #[trigger] cap_apply(ws, ps)[j] == if ps.contains(j as usize) {
                spec_capitalize(ws[j])
            } else {
                ws[j]
            },
    decreases ps.len(),
{
    if ps.len() > 0 {
        let head = ps.drop_last();
        let p = ps.last() as int;
        assert(head.no_duplicates());
        lemma_cap_apply_pointwise(ws, head);
        assert(!head.contains(ps.last()));
        assert forall|j: int| 0 <= j < ws.len() implies #[trigger] cap_apply(ws, ps)[j] == if ps.contains(
            j as usize,
        ) {
            spec_capitalize(ws[j])
        } else {
            ws[j]
        } by {
            if ps.contains(j as usize) {
                let w = choose|w: int| 0 <= w < ps.len() && ps[w] == j as usize;
                if w < ps.len() - 1 {
                    assert(head[w] == j as usize);
                    assert(head.contains(j as usize));
                } else {
                    assert(j == p);
                }
            } else {
                assert(!head.contains(j as usize)) by {
                    if head.contains(j as usize) {
                        let w = choose|w: int| 0 <= w < head.len() && head[w] == j as usize;
                        assert(ps[w] == j as usize);
                    }
                }
                assert(j != p);
            }
        }
    }
}

/// Capitalize the tokens at the listed positions, in list order.
pub fn apply_capitalization(tokens: &mut Vec<String>, positions: &Vec<usize>)
    requires
        forall|i: int| 0 <= i < positions@.len() ==> (#[trigger] positions@[i]) < old(tokens)@.len(),
    ensures
        final(tokens)@.len() == old(tokens)@.len(),
        views_of(final(tokens)@) == cap_apply(views_of(old(tokens)@), positions@),
{
    let mut i: usize = 0;
    proof {
        assert(views_of(tokens@) =~= cap_apply(views_of(old(tokens)@), positions@.take(0)));
    }
    while i < positions.len()
        invariant
            i <= positions@.len(),
            tokens@.len() == old(tokens)@.len(),
            forall|t: int|
                0 <= t < positions@.len() ==> (#[trigger] positions@[t]) < old(tokens)@.len(),
            views_of(tokens@) == cap_apply(views_of(old(tokens)@), positions@.take(i as int)),
        decreases positions@.len() - i,
    {
        let p = positions[i];
        let w = capitalize(tokens[p].as_str());
        let ghost pre = tokens@;
        tokens[p] = w;
        proof {
            assert(positions@.take(i + 1).drop_last() =~= positions@.take(i as int));
            assert(positions@.take(i + 1).last() == positions@[i as int]);
            assert(views_of(tokens@) =~= views_of(pre).update(p as int, w@));
            assert(views_of(tokens@) =~= cap_apply(views_of(old(tokens)@), positions@.take(i + 1)));
        }
        i = i + 1;
    }
    proof {
        assert(positions@.take(positions@.len() as int) =~= positions@);
    }
}

/// The tokens after `steps` scripted insertions from `alpha`, and the script
/// position after them: each insertion draws a position over the current
/// length inclusive, then a character from the alphabet.
pub open spec fn inserted_state(
    base: Seq<Seq<char>>,
    alpha: Seq<char>,
    vals: Seq<u64>,
    next0: int,
    steps: int,
) -> (Seq<Seq<char>>, int)
    recommends
        alpha.len() > 0,
    decreases steps,
{
    if steps <= 0 {
        (base, next0)
    } else {
        let prev = inserted_state(base, alpha, vals, next0, steps - 1);
        let pos = draw_at(vals, prev.1, prev.0.len() as int + 1);
        let n1 = next_after(vals, prev.1);
        let c = alpha[draw_at(vals, n1, alpha.len() as int)];
        (prev.0.insert(pos, seq![c]), next_after(vals, n1))
    }
}

/// Whether `out` is `base` with `count` single-character tokens from `alpha`
/// inserted, one after another, each at some position of the sequence as it
/// stood at that moment.
pub open spec fn insertion_of(
    base: Seq<Seq<char>>,
    out: Seq<Seq<char>>,
    alpha: Seq<char>,
    count: int,
) -> bool
    decreases count,
{
    if count <= 0 {
        out == base
    } else {
        exists|mid: Seq<Seq<char>>, p: int, c: char|
            {
                &&& insertion_of(base, mid, alpha, count - 1)
                &&& 0 <= p <= mid.len()
                &&& alpha.contains(c)
                &&& out == #[trigger] mid.insert(p, seq![c])
            }
    }
}

/// Every token of a sequence obtained by insertions is either a token of the
/// base sequence or a single character of the alphabet.
pub proof fn lemma_insertion_tokens(
    base: Seq<Seq<char>>,
    out: Seq<Seq<char>>,
    alpha: Seq<char>,
    count: int,
)
    requires
        insertion_of(base, out, alpha, count),
    ensures
        out.len() == base.len() + if count >= 0 {
            count
        } else {
            0
        },
        forall|t: int|
            0 <= t < out.len() ==> base.contains(#[trigger] out[t]) || (out[t].len() == 1
                && alpha.contains(out[t][0])),
    decreases count,
{
    if count <= 0 {
        assert forall|t: int| 0 <= t < out.len() implies base.contains(#[trigger] out[t]) || (
        out[t].len() == 1 && alpha.contains(out[t][0])) by {
            assert(base[t] == out[t]);
        }
    } else {
        let (mid, p, c) = choose|mid: Seq<Seq<char>>, p: int, c: char|
            {
                &&& insertion_of(base, mid, alpha, count - 1)
                &&& 0 <= p <= mid.len()
                &&& alpha.contains(c)
                &&& out == #[trigger] mid.insert(p, seq![c])
            };
        lemma_insertion_tokens(base, mid, alpha, count - 1);
        mid.insert_ensures(p, seq![c]);
        assert forall|t: int| 0 <= t < out.len() implies base.contains(#[trigger] out[t]) || (
        out[t].len() == 1 && alpha.contains(out[t][0])) by {
            if t < p {
                assert(out[t] == mid[t]);
            } else if t == p {
                assert(out[t] == seq![c]);
            } else {
                assert(out[t] == mid[t - 1]);
            }
        }
    }
}

/// Insert `count` tokens drawn from `alphabet`, each one character long, at
/// positions drawn over the sequence's current length.
pub fn insert_tokens(
    tokens: &mut Vec<String>,
    count: usize,
    alphabet: &Vec<char>,
    rng: &mut RandomProvider,
)
    requires
        alphabet@.len() > 0,
        old(tokens)@.len() + count <= usize::MAX,
    ensures
        final(tokens)@.len() == old(tokens)@.len() + count,
        insertion_of(views_of(old(tokens)@), views_of(final(tokens)@), alphabet@, count as int),
        final(rng).script == old(rng).script,
        old(rng).script is None ==> *final(rng) == *old(rng),
        old(rng).script matches Some(vals) ==> {
            &&& views_of(final(tokens)@) == inserted_state(
                views_of(old(tokens)@),
                alphabet@,
                vals@,
                old(rng).next as int,
                count as int,
            ).0
            &&& final(rng).next as int == inserted_state(
                views_of(old(tokens)@),
                alphabet@,
                vals@,
                old(rng).next as int,
                count as int,
            ).1
        },
{
    let ghost base = views_of(old(tokens)@);
    let mut i: usize = 0;
    while i < count
        invariant
            i <= count,
            base == views_of(old(tokens)@),
            alphabet@.len() > 0,
            tokens@.len() == old(tokens)@.len() + i,
            old(tokens)@.len() + count <= usize::MAX,
            insertion_of(base, views_of(tokens@), alphabet@, i as int),
            rng.script == old(rng).script,
            old(rng).script is None ==> *rng == *old(rng),
            old(rng).script matches Some(vals) ==> {
                &&& views_of(tokens@) == inserted_state(
                    base,
                    alphabet@,
                    vals@,
                    old(rng).next as int,
                    i as int,
                ).0
                &&& rng.next as int == inserted_state(
                    base,
                    alphabet@,
                    vals@,
                    old(rng).next as int,
                    i as int,
                ).1
            },
        decreases count - i,
    {
        let len = tokens.len();
        let pos = rng.uniform_upto(len);
        let ci = rng.uniform_below(alphabet.len());
        let c = alphabet[ci];
        let tok = char_token(c);
        let ghost pre = views_of(tokens@);
        tokens.insert(pos, tok);
        proof {
            assert(views_of(tokens@) =~= pre.insert(pos as int, tok@));
            assert(alphabet@.contains(c));
            assert(insertion_of(base, views_of(tokens@), alphabet@, i + 1)) by {
                assert({
                    &&& insertion_of(base, pre, alphabet@, i as int)
                    &&& 0 <= pos as int <= pre.len()
                    &&& alphabet@.contains(c)
                    &&& views_of(tokens@) == pre.insert(pos as int, seq![c])
                });
            }
            if old(rng).script is Some {
                let vals = old(rng).script->0;
                assert(views_of(tokens@) =~= inserted_state(
                    base,
                    alphabet@,
                    vals@,
                    old(rng).next as int,
                    i + 1,
                ).0);
            }
        }
        i = i + 1;
    }
}

/// Whether `w` is the view of one of the dictionary's entries.
pub open spec fn word_from(dict: Seq<String>, w: Seq<char>) -> bool {
    exists|j: int| 0 <= j < dict.len() && w == #[trigger] dict[j]@
}

/// How an assembled token sequence `out` arises from a configuration and a
/// dictionary: `ws` are the drawn words, in draw order; `ps` are the distinct
/// word positions that were capitalized; `mid` is the sequence after the
/// digit insertions and before the symbol insertions.
pub open spec fn assembled_from(
    cfg: Config,
    dict: Seq<String>,
    ws: Seq<Seq<char>>,
    ps: Seq<usize>,
    mid: Seq<Seq<char>>,
    out: Seq<Seq<char>>,
) -> bool {
    &&& ws.len() == cfg.words
    &&& forall|t: int| 0 <= t < ws.len() ==> word_from(dict, #[trigger] ws[t])
    &&& ps.len() == cfg.caps
    &&& ps.no_duplicates()
    &&& forall|i: int| 0 <= i < ps.len() ==> (#[trigger] ps[i]) < cfg.words
    &&& insertion_of(cap_apply(ws, ps), mid, digit_chars(), cfg.nums as int)
    &&& insertion_of(mid, out, symbol_chars(), cfg.syms as int)
}

/// The token sequence assembled from a scripted word source and a scripted
/// random provider, with the source and script positions after the run.
pub open spec fn assemble_model(
    cfg: Config,
    dict: Seq<Seq<char>>,
    wnext: int,
    vals: Seq<u64>,
    rnext: int,
) -> (Seq<Seq<char>>, int, int)
    recommends
        cfg.wf(),
        cfg.words == 0 || dict.len() > 0,
{
    let w = scripted_words(dict, wnext, cfg.words as int);
    let f = scripted_positions(cfg.words as int, vals, rnext, cfg.caps as int);
    let capped = cap_apply(w.0, f.0);
    let d = inserted_state(capped, digit_chars(), vals, f.1, cfg.nums as int);
    let sy = inserted_state(d.0, symbol_chars(), vals, d.1, cfg.syms as int);
    (sy.0, w.1, sy.1)
}

/// Whether `out` can be the token views of an assembly for `cfg` from the
/// dictionary `dict`, for some drawn words, capitalized positions, and
/// insertion choices.
pub open spec fn assembled(cfg: Config, dict: Seq<String>, out: Seq<Seq<char>>) -> bool {
    exists|ws: Seq<Seq<char>>, ps: Seq<usize>, mid: Seq<Seq<char>>|
        #[trigger] assembled_from(cfg, dict, ws, ps, mid, out)
}

/// With a scripted source and a scripted provider, the assembly's output and
/// the two final positions are exactly what the model computes.
pub open spec fn scripted_outcome(
    cfg: Config,
    src0: WordSource,
    rng0: RandomProvider,
    src1: WordSource,
    rng1: RandomProvider,
    out: Seq<Seq<char>>,
) -> bool {
    (src0.scripted && rng0.script is Some) ==> {
        let m = assemble_model(
            cfg,
            views_of(src0.words@),
            src0.next as int,
            rng0.script->0@,
            rng0.next as int,
        );
        &&& out == m.0
        &&& src1.next as int == m.1
        &&& rng1.next as int == m.2
    }
}

/// Assemble a passphrase token sequence: draw `cfg.words` words, capitalize
/// `cfg.caps` distinct word positions, insert `cfg.nums` digit tokens, then
/// `cfg.syms` symbol tokens, each insertion at a position drawn over the
/// sequence's length at that moment. Fails exactly when at least one word is
/// needed and the word list is empty. With a scripted source and a scripted
/// provider the result is the one the model computes from the scripts.
#[verifier::rlimit(50)]
#[verifier::spinoff_prover]
pub fn assemble(cfg: Config, src: &mut WordSource, rng: &mut RandomProvider) -> (r: Result<
    Vec<String>,
    PhraseError,
>)
    requires
        cfg.wf(),
        cfg.words + cfg.nums + cfg.syms <= usize::MAX,
    ensures
        final(src).words == old(src).words,
        final(src).scripted == old(src).scripted,
        final(rng).script == old(rng).script,
        (r is Ok) == !(cfg.words > 0 && old(src).words@.len() == 0),
        r is Err ==> {
            &&& r->Err_0 == PhraseError::EmptyDictionary
            &&& *final(src) == *old(src)
            &&& *final(rng) == *old(rng)
        },
        r matches Ok(toks) ==> {
            &&& toks@.len() == cfg.words + cfg.nums + cfg.syms
            &&& assembled(cfg, old(src).words@, views_of(toks@))
            &&& scripted_outcome(cfg, *old(src), *old(rng), *final(src), *final(rng), views_of(toks@))
        },
{
    let mut tokens = match select_words(cfg.words, src, rng) {
        Ok(ws) => ws,
        Err(e) => {
            return Err(e);
        },
    };
    let ghost ws_strings = tokens@;
    let ghost ws_views = views_of(tokens@);
    let positions = sample_positions(cfg.caps, cfg.words, rng);
    apply_capitalization(&mut tokens, &positions);
    let ghost capped = views_of(tokens@);
    let digits = digit_alphabet();
    insert_tokens(&mut tokens, cfg.nums, &digits, rng);
    let ghost mid = views_of(tokens@);
    let symbols = symbol_alphabet();
    insert_tokens(&mut tokens, cfg.syms, &symbols, rng);
    proof {
        assert forall|t: int| 0 <= t < ws_views.len() implies word_from(
            old(src).words@,
            #[trigger] ws_views[t],
        ) by {
            assert(from_dictionary(old(src).words@, ws_strings[t]));
            let j = choose|j: int| 0 <= j < old(src).words@.len() && ws_strings[t] == old(
                src,
            ).words@[j];
            assert(ws_views[t] == ws_strings[t]@);
            assert(ws_views[t] == old(src).words@[j]@);
        }
        assert(assembled_from(cfg, old(src).words@, ws_views, positions@, mid, views_of(tokens@)));
        assert(assembled(cfg, old(src).words@, views_of(tokens@)));
        if old(src).scripted && old(rng).script is Some {
            let vals = old(rng).script->0;
            let dict = views_of(old(src).words@);
            let wnext = old(src).next as int;
            let rnext = old(rng).next as int;
            let w = scripted_words(dict, wnext, cfg.words as int);
            let f = scripted_positions(cfg.words as int, vals@, rnext, cfg.caps as int);
            let d = inserted_state(cap_apply(w.0, f.0), digit_chars(), vals@, f.1, cfg.nums as int);
            let sy = inserted_state(d.0, symbol_chars(), vals@, d.1, cfg.syms as int);
            assert(ws_views == w.0);
            assert(positions@ == f.0);
            assert(capped == cap_apply(w.0, f.0));
            assert(mid == d.0);
            assert(views_of(tokens@) == sy.0);
            assert(assemble_model(cfg, dict, wnext, vals@, rnext).0 == sy.0);
            assert(assemble_model(cfg, dict, wnext, vals@, rnext).2 == sy.1);
        }
        assert(scripted_outcome(cfg, *old(src), *old(rng), *src, *rng, views_of(tokens@)));
    }
    Ok(tokens)
}

/// Capitalization touches exactly as many distinct word positions as there
/// are capitalization operations: the targeted positions are pairwise
/// distinct, and every other token is left unchanged.
pub proof fn lemma_capitalization_count(ws: Seq<Seq<char>>, ps: Seq<usize>)
    requires
        ws.len() <= usize::MAX,
        ps.no_duplicates(),
        forall|i: int| 0 <= i < ps.len() ==> (#[trigger] ps[i]) < ws.len(),
    ensures
        ps.to_set().len() == ps.len(),
        cap_apply(ws, ps).len() == ws.len(),
        forall|j: int|
            0 <= j < ws.len() ==> #[trigger] cap_apply(ws, ps)[j] == if ps.contains(j as usize) {
                spec_capitalize(ws[j])
            } else {
                ws[j]
            },
{
    ps.unique_seq_to_set();
    lemma_cap_apply_pointwise(ws, ps);
}

/// Determinism under fixed randomness: assemblies from equal configurations,
/// equal scripted dictionaries and positions, and equal scripted draws yield
/// the same tokens and the same final positions.
pub proof fn lemma_scripted_determinism(
    cfg1: Config,
    dict1: Seq<Seq<char>>,
    wnext1: int,
    vals1: Seq<u64>,
    rnext1: int,
    cfg2: Config,
    dict2: Seq<Seq<char>>,
    wnext2: int,
    vals2: Seq<u64>,
    rnext2: int,
)
    requires
        cfg1 == cfg2,
        dict1 == dict2,
        wnext1 == wnext2,
        vals1 == vals2,
        rnext1 == rnext2,
    ensures
        assemble_model(cfg1, dict1, wnext1, vals1, rnext1) == assemble_model(
            cfg2,
            dict2,
            wnext2,
            vals2,
            rnext2,
        ),
{
}

/// Whether token `t` is one of the drawn words, as it was drawn or
/// capitalized.
pub open spec fn word_token(ws: Seq<Seq<char>>, t: Seq<char>) -> bool {
    exists|j: int| 0 <= j < ws.len() && (t == #[trigger] ws[j] || t == spec_capitalize(ws[j]))
}

/// Every token of an assembled sequence is a drawn word, a drawn word
/// capitalized, a single digit, or a single symbol, and the sequence holds
/// exactly the configured number of tokens.
pub proof fn lemma_assembled_tokens(
    cfg: Config,
    dict: Seq<String>,
    ws: Seq<Seq<char>>,
    ps: Seq<usize>,
    mid: Seq<Seq<char>>,
    out: Seq<Seq<char>>,
)
    requires
        cfg.wf(),
        assembled_from(cfg, dict, ws, ps, mid, out),
    ensures
        out.len() == cfg.words + cfg.nums + cfg.syms,
        forall|t: int|
            0 <= t < out.len() ==> word_token(ws, #[trigger] out[t]) || (out[t].len() == 1 && (
            digit_chars().contains(out[t][0]) || symbol_chars().contains(out[t][0]))),
{
    let capped = cap_apply(ws, ps);
    lemma_cap_apply_pointwise(ws, ps);
    lemma_insertion_tokens(capped, mid, digit_chars(), cfg.nums as int);
    lemma_insertion_tokens(mid, out, symbol_chars(), cfg.syms as int);
    assert forall|t: int| 0 <= t < out.len() implies word_token(ws, #[trigger] out[t]) || (
    out[t].len() == 1 && (digit_chars().contains(out[t][0]) || symbol_chars().contains(
        out[t][0],
    ))) by {
        if mid.contains(out[t]) {
            let u = choose|u: int| 0 <= u < mid.len() && mid[u] == out[t];
            if capped.contains(mid[u]) {
                let v = choose|v: int| 0 <= v < capped.len() && capped[v] == mid[u];
                assert(capped[v] == ws[v] || capped[v] == spec_capitalize(ws[v]));
                assert(word_token(ws, out[t]));
            }
        }
    }
}

} // verus!
