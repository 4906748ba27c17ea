//! Splitting message text into blocks along grapheme-cluster boundaries, so
//! that no block exceeds a character budget and no cluster is torn apart.

use vstd::prelude::*;

use unicode_segmentation::UnicodeSegmentation;

verus! {

/// The extended grapheme clusters of a text, in order.
pub uninterp spec fn graphemes_of(s: Seq<char>) -> Seq<Seq<char>>;

/// All the pieces, one after another.
pub open spec fn concat_seqs(gs: Seq<Seq<char>>) -> Seq<char>
    decreases gs.len(),
{
    if gs.len() == 0 {
        Seq::empty()
    } else {
        gs[0] + concat_seqs(gs.skip(1))
    }
}

/// Relies on unicode_segmentation's `graphemes(true)`: the extended grapheme
/// clusters of the text, in order. They are consecutive non-empty substrings
/// that together make up the text.
#[verifier::external_body]
fn grapheme_split(text: &str) -> (r: Vec<String>)
    ensures
        r@.map_values(|g: String| g@) == graphemes_of(text@),
        concat_seqs(r@.map_values(|g: String| g@)) == text@,
        forall|i: int| 0 <= i < r@.len() ==> (#[trigger] r@[i])@.len() > 0,
{
    text.graphemes(true).map(|g| g.to_string()).collect()
}

/// Appending one more piece appends its characters.
proof fn lemma_concat_push(gs: Seq<Seq<char>>, x: Seq<char>)
    ensures
        concat_seqs(gs.push(x)) == concat_seqs(gs) + x,
    decreases gs.len(),
{
    if gs.len() == 0 {
        assert(gs.push(x).skip(1) =~= Seq::<Seq<char>>::empty());
        assert(gs.push(x)[0] == x);
        assert(concat_seqs(Seq::<Seq<char>>::empty()) == Seq::<char>::empty());
        assert(concat_seqs(gs.push(x)) == x + Seq::<char>::empty());
        assert(x + Seq::<char>::empty() =~= x);
        assert(concat_seqs(gs) + x =~= x);
    } else {
        assert(gs.push(x).skip(1) =~= gs.skip(1).push(x));
        lemma_concat_push(gs.skip(1), x);
        assert(gs.push(x)[0] == gs[0]);
        assert(concat_seqs(gs.push(x)) == gs[0] + (concat_seqs(gs.skip(1)) + x));
        assert(gs[0] + (concat_seqs(gs.skip(1)) + x) =~= (gs[0] + concat_seqs(gs.skip(1))) + x);
    }
}

/// A single piece holds exactly its own characters.
proof fn lemma_concat_singleton(x: Seq<char>)
    ensures
        concat_seqs(seq![x]) == x,
{
    assert(seq![x].skip(1) =~= Seq::<Seq<char>>::empty());
    assert(seq![x][0] == x);
    assert(concat_seqs(Seq::<Seq<char>>::empty()) == Seq::<char>::empty());
    assert(concat_seqs(seq![x]) == x + Seq::<char>::empty());
    assert(x + Seq::<char>::empty() =~= x);
}

/// A list beginning with a non-empty piece concatenates to a non-empty text.
proof fn lemma_concat_nonempty(gs: Seq<Seq<char>>)
    requires
        gs.len() > 0,
        gs[0].len() > 0,
    ensures
        concat_seqs(gs).len() > 0,
{
    assert(concat_seqs(gs) == gs[0] + concat_seqs(gs.skip(1)));
}

/// The pieces before and after a cut together make the whole.
proof fn lemma_concat_take_skip(gs: Seq<Seq<char>>, j: int)
    requires
        0 <= j <= gs.len(),
    ensures
        concat_seqs(gs) == concat_seqs(gs.take(j)) + concat_seqs(gs.skip(j)),
    decreases j,
{
    if j == 0 {
        assert(gs.take(0) =~= Seq::<Seq<char>>::empty());
        assert(gs.skip(0) =~= gs);
        assert(concat_seqs(gs) =~= concat_seqs(gs.take(0)) + concat_seqs(gs.skip(0)));
    } else {
        lemma_concat_take_skip(gs, j - 1);
        assert(gs.take(j) =~= gs.take(j - 1).push(gs[j - 1]));
        lemma_concat_push(gs.take(j - 1), gs[j - 1]);
        assert(gs.skip(j - 1)[0] == gs[j - 1]);
        assert(gs.skip(j - 1).skip(1) =~= gs.skip(j));
        assert(concat_seqs(gs.skip(j - 1)) == gs[j - 1] + concat_seqs(gs.skip(j)));
        assert((concat_seqs(gs.take(j - 1)) + gs[j - 1]) + concat_seqs(gs.skip(j)) =~= concat_seqs(
            gs.take(j - 1),
        ) + (gs[j - 1] + concat_seqs(gs.skip(j))));
    }
}

/// How many leading pieces fit a budget of `max` characters, counted
/// cumulatively.
pub open spec fn split_point(gs: Seq<Seq<char>>, max: nat) -> int
    decreases gs.len(),
{
    if gs.len() == 0 {
        0
    } else if gs[0].len() <= max {
        1 + split_point(gs.skip(1), (max - gs[0].len()) as nat)
    } else {
        0
    }
}

pub proof fn lemma_split_point_bounds(gs: Seq<Seq<char>>, max: nat)
    ensures
        0 <= split_point(gs, max) <= gs.len(),
    decreases gs.len(),
{
    if gs.len() > 0 && gs[0].len() <= max {
        lemma_split_point_bounds(gs.skip(1), (max - gs[0].len()) as nat);
    }
}

/// A prefix fits the budget exactly when it stops at the split point.
pub proof fn lemma_split_point_iff(gs: Seq<Seq<char>>, max: nat, j: int)
    requires
        0 <= j <= gs.len(),
    ensures
        (j <= split_point(gs, max)) <==> (concat_seqs(gs.take(j)).len() <= max),
    decreases gs.len(),
{
    lemma_split_point_bounds(gs, max);
    if j == 0 {
        assert(gs.take(0) =~= Seq::<Seq<char>>::empty());
    } else {
        assert(gs.take(j)[0] == gs[0]);
        assert(gs.take(j).skip(1) =~= gs.skip(1).take(j - 1));
        assert(concat_seqs(gs.take(j)) == gs[0] + concat_seqs(gs.skip(1).take(j - 1)));
        if gs[0].len() <= max {
            lemma_split_point_iff(gs.skip(1), (max - gs[0].len()) as nat, j - 1);
        } else {
            assert(concat_seqs(gs.take(j)).len() >= gs[0].len());
        }
    }
}

/// The blocks a piece list falls into: leading pieces are gathered while the
/// cumulative character count stays within the budget, then the count starts
/// over. A piece list whose first piece alone exceeds the budget becomes a
/// single oversized block, and an empty text gives one empty block.
pub open spec fn blocks_of(gs: Seq<Seq<char>>, max: nat) -> Seq<Seq<char>>
    decreases gs.len(),
{
    let k = split_point(gs, max);
    if gs.len() == 0 {
        seq![Seq::<char>::empty()]
    } else if k == 0 || k == gs.len() {
        seq![concat_seqs(gs)]
    } else {
        proof {
            lemma_split_point_bounds(gs, max);
        }
        seq![concat_seqs(gs.take(k))] + blocks_of(gs.skip(k), max)
    }
}

/// Taken together, the blocks hold exactly the characters of the text.
pub proof fn lemma_blocks_concat(gs: Seq<Seq<char>>, max: nat)
    ensures
        concat_seqs(blocks_of(gs, max)) == concat_seqs(gs),
    decreases gs.len(),
{
    let k = split_point(gs, max);
    lemma_split_point_bounds(gs, max);
    if gs.len() == 0 {
        lemma_concat_singleton(Seq::<char>::empty());
        assert(concat_seqs(blocks_of(gs, max)) =~= concat_seqs(gs));
    } else if k == 0 || k == gs.len() {
        lemma_concat_singleton(concat_seqs(gs));
        assert(blocks_of(gs, max) == seq![concat_seqs(gs)]);
    } else {
        lemma_blocks_concat(gs.skip(k), max);
        lemma_concat_take_skip(gs, k);
        let b = blocks_of(gs, max);
        assert(b[0] == concat_seqs(gs.take(k)));
        assert(b.skip(1) =~= blocks_of(gs.skip(k), max));
        assert(concat_seqs(b) == concat_seqs(gs.take(k)) + concat_seqs(blocks_of(gs.skip(k), max)));
    }
}

/// The text with every occurrence of `pat` replaced by `to`: occurrences are
/// found leftmost-first and do not overlap. An empty pattern occurs nowhere,
/// so it leaves the text unchanged.
pub open spec fn replace_spec(s: Seq<char>, pat: Seq<char>, to: Seq<char>) -> Seq<char>
    decreases s.len(),
{
    if pat.len() == 0 || s.len() < pat.len() {
        s
    } else if s.take(pat.len() as int) == pat {
        to + replace_spec(s.skip(pat.len() as int), pat, to)
    } else {
        seq![s[0]] + replace_spec(s.skip(1), pat, to)
    }
}

/// Whether `s` carries exactly `pat` at position `i`.
fn matches_at(s: &str, n: usize, i: usize, pat: &str, plen: usize) -> (r: bool)
    requires
        n == s@.len(),
        plen == pat@.len(),
        i + plen <= n,
    ensures
        r == (s@.subrange(i as int, i as int + plen as int) == pat@),
{
    let mut t: usize = 0;
    while t < plen
        invariant
            t <= plen,
            n == s@.len(),
            plen == pat@.len(),
            i + plen <= n,
            forall|q: int| 0 <= q < t ==> s@[i + q] == pat@[q],
        decreases plen - t,
    {
        if s.get_char(i + t) != pat.get_char(t) {
            proof {
                assert(s@.subrange(i as int, i as int + plen as int)[t as int] != pat@[t as int]);
            }
            return false;
        }
        t = t + 1;
    }
    proof {
        assert(s@.subrange(i as int, i as int + plen as int) =~= pat@);
    }
    true
}

/// The text with every occurrence of `pat` replaced by `to`, leftmost-first
/// and without overlap.
pub fn replace(s: &str, pat: &str, to: &str) -> (r: String)
    ensures
        r@ == replace_spec(s@, pat@, to@),
{
    let n = s.unicode_len();
    let plen = pat.unicode_len();
    if plen == 0 {
        return s.to_owned();
    }
    let mut out = String::new();
    let mut i: usize = 0;
    proof {
        assert(s@.skip(0) =~= s@);
    }
    while i < n
        invariant
            i <= n,
            n == s@.len(),
            plen == pat@.len(),
            plen >= 1,
            replace_spec(s@, pat@, to@) == out@ + replace_spec(s@.skip(i as int), pat@, to@),
        decreases n - i,
    {
        let ghost suffix = s@.skip(i as int);
        if n - i >= plen && matches_at(s, n, i, pat, plen) {
            out.append(to);
            proof {
                assert(suffix.take(plen as int) =~= s@.subrange(i as int, i as int + plen as int));
                assert(suffix.skip(plen as int) =~= s@.skip(i as int + plen as int));
                assert(replace_spec(suffix, pat@, to@) == to@ + replace_spec(
                    s@.skip(i as int + plen as int),
                    pat@,
                    to@,
                ));
            }
            i = i + plen;
        } else {
            out.append(s.substring_char(i, i + 1));
            proof {
                assert(s@.subrange(i as int, i as int + 1) =~= seq![s@[i as int]]);
                assert(suffix[0] == s@[i as int]);
                assert(suffix.skip(1) =~= s@.skip(i as int + 1));
                if suffix.len() < plen {
                    assert(replace_spec(suffix, pat@, to@) == suffix);
                    assert(s@.skip(i as int + 1).len() < plen);
                    assert(replace_spec(s@.skip(i as int + 1), pat@, to@) == s@.skip(
                        i as int + 1,
                    ));
                    assert(suffix =~= seq![suffix[0]] + suffix.skip(1));
                } else {
                    assert(suffix.take(plen as int) =~= s@.subrange(
                        i as int,
                        i as int + plen as int,
                    ));
                    assert(suffix.take(plen as int) != pat@);
                    assert(replace_spec(suffix, pat@, to@) == seq![suffix[0]] + replace_spec(
                        suffix.skip(1),
                        pat@,
                        to@,
                    ));
                }
            }
            i = i + 1;
        }
    }
    proof {
        assert(s@.skip(n as int) =~= Seq::<char>::empty());
        assert(replace_spec(Seq::<char>::empty(), pat@, to@) == Seq::<char>::empty());
        assert(out@ =~= out@ + Seq::<char>::empty());
    }
    out
}

/// Splits `text` at the last grapheme boundary where the cumulative
/// character count still fits `max_bytes`: the part that fits, and the rest.
pub fn truncate(text: &str, max_bytes: usize) -> (r: (String, String))
    ensures
        ({
            let gsv = graphemes_of(text@);
            let k = split_point(gsv, max_bytes as nat);
            &&& r.0@ == concat_seqs(gsv.take(k))
            &&& r.1@ == concat_seqs(gsv.skip(k))
            &&& r.0@ + r.1@ == text@
            &&& k >= 1 ==> r.0@.len() > 0
            &&& k < gsv.len() ==> r.1@.len() > 0
        }),
{
    let total_chars = text.unicode_len();
    let gs = grapheme_split(text);
    let ghost gsv = graphemes_of(text@);
    let ghost k = split_point(gsv, max_bytes as nat);
    proof {
        lemma_split_point_bounds(gsv, max_bytes as nat);
        assert(concat_seqs(gsv) == text@);
    }
    let mut result = String::new();
    let mut remaining = String::new();
    let mut count: usize = 0;
    let mut i: usize = 0;
    while i < gs.len()
        invariant
            i <= gs.len(),
            gs@.map_values(|g: String| g@) == gsv,
            gsv.len() == gs@.len(),
            concat_seqs(gsv) == text@,
            total_chars as nat == text@.len(),
            k == split_point(gsv, max_bytes as nat),
            0 <= k <= gsv.len(),
            count == concat_seqs(gsv.take(i as int)).len(),
            if i as int <= k {
                result@ == concat_seqs(gsv.take(i as int)) && remaining@ =~= Seq::<char>::empty()
            } else {
                result@ == concat_seqs(gsv.take(k)) && remaining@ == concat_seqs(
                    gsv.subrange(k, i as int),
                )
            },
        decreases gs.len() - i,
    {
        let ghost i0 = i as int;
        let g_len = gs[i].as_str().unicode_len();
        proof {
            assert(gs@[i0]@ == gsv[i0]);
            assert(gsv.take(i0 + 1) =~= gsv.take(i0).push(gsv[i0]));
            lemma_concat_push(gsv.take(i0), gsv[i0]);
            lemma_concat_take_skip(gsv, i0 + 1);
            assert(concat_seqs(gsv.take(i0 + 1)).len() <= text@.len());
        }
        count = count + g_len;
        proof {
            lemma_split_point_iff(gsv, max_bytes as nat, i0 + 1);
        }
        if count > max_bytes {
            proof {
                assert(i0 + 1 > k);
                if i0 < k {
                    lemma_split_point_iff(gsv, max_bytes as nat, i0);
                }
                assert(i0 >= k);
            }
            remaining.append(gs[i].as_str());
            proof {
                if i0 == k {
                    assert(gsv.subrange(k, i0 + 1) =~= seq![gsv[i0]]);
                    lemma_concat_singleton(gsv[i0]);
                    assert(remaining@ =~= concat_seqs(gsv.subrange(k, i0 + 1)));
                } else {
                    assert(gsv.subrange(k, i0 + 1) =~= gsv.subrange(k, i0).push(gsv[i0]));
                    lemma_concat_push(gsv.subrange(k, i0), gsv[i0]);
                }
            }
        } else {
            proof {
                assert(i0 + 1 <= k);
            }
            result.append(gs[i].as_str());
        }
        i = i + 1;
    }
    proof {
        lemma_concat_take_skip(gsv, k);
        if k == gsv.len() {
            assert(gsv.take(k) =~= gsv);
            assert(gsv.skip(k) =~= Seq::<Seq<char>>::empty());
            assert(result@ == concat_seqs(gsv.take(k)));
            assert(remaining@ =~= concat_seqs(gsv.skip(k)));
        } else {
            assert(gsv.subrange(k, gsv.len() as int) =~= gsv.skip(k));
        }
        assert forall|t: int| 0 <= t < gsv.len() implies (#[trigger] gsv[t]).len() > 0 by {
            assert(gsv[t] == gs@[t]@);
        }
        if k >= 1 {
            assert(gsv.take(k)[0] == gsv[0]);
            lemma_concat_nonempty(gsv.take(k));
        }
        if k < gsv.len() {
            assert(gsv.skip(k)[0] == gsv[k]);
            lemma_concat_nonempty(gsv.skip(k));
        }
    }
    (result, remaining)
}

/// The characters of the pieces `gs[from .. to)`, one after another.
fn concat_range(gs: &Vec<String>, from: usize, to: usize) -> (r: String)
    requires
        from <= to <= gs@.len(),
    ensures
        r@ == concat_seqs(gs@.map_values(|g: String| g@).subrange(from as int, to as int)),
{
    let ghost m = gs@.map_values(|g: String| g@);
    let mut r = String::new();
    let mut t = from;
    proof {
        assert(m.subrange(from as int, from as int) =~= Seq::<Seq<char>>::empty());
    }
    while t < to
        invariant
            from <= t <= to <= gs@.len(),
            m == gs@.map_values(|g: String| g@),
            r@ == concat_seqs(m.subrange(from as int, t as int)),
        decreases to - t,
    {
        r.append(gs[t].as_str());
        proof {
            assert(gs@[t as int]@ == m[t as int]);
            assert(m.subrange(from as int, t as int + 1) =~= m.subrange(
                from as int,
                t as int,
            ).push(m[t as int]));
            lemma_concat_push(m.subrange(from as int, t as int), m[t as int]);
        }
        t = t + 1;
    }
    r
}

/// The end of the chunk beginning at `pos`: pieces are taken while the
/// cumulative character count fits `max`.
fn scan_chunk(gs: &Vec<String>, pos: usize, max: usize) -> (j: usize)
    requires
        pos <= gs@.len(),
    ensures
        pos <= j <= gs@.len(),
        j as int == pos + split_point(gs@.map_values(|g: String| g@).skip(pos as int), max as nat),
{
    let ghost m = gs@.map_values(|g: String| g@);
    let ghost suffix = m.skip(pos as int);
    let ghost k = split_point(suffix, max as nat);
    proof {
        lemma_split_point_bounds(suffix, max as nat);
    }
    let mut count: usize = 0;
    let mut j = pos;
    while j < gs.len()
        invariant
            pos <= j <= gs@.len(),
            m == gs@.map_values(|g: String| g@),
            suffix == m.skip(pos as int),
            k == split_point(suffix, max as nat),
            0 <= k <= suffix.len(),
            suffix.len() == gs@.len() - pos,
            j - pos <= k,
            count == concat_seqs(suffix.take(j - pos)).len(),
            count <= max,
        decreases gs@.len() - j,
    {
        let ghost d = j - pos;
        let g_len = gs[j].as_str().unicode_len();
        proof {
            assert(gs@[j as int]@ == m[j as int]);
            assert(m[j as int] == suffix[d]);
            assert(suffix.take(d + 1) =~= suffix.take(d).push(suffix[d]));
            lemma_concat_push(suffix.take(d), suffix[d]);
            lemma_split_point_iff(suffix, max as nat, d + 1);
        }
        if g_len > max || count > max - g_len {
            proof {
                assert(concat_seqs(suffix.take(d + 1)).len() > max);
                assert(!(d + 1 <= k));
                assert(k == d);
            }
            return j;
        }
        count = count + g_len;
        j = j + 1;
    }
    proof {
        assert(j - pos == suffix.len());
        assert(k == suffix.len()) by {
            assert(j - pos <= k);
        }
    }
    j
}

/// Splits `text` into consecutive blocks at grapheme boundaries, each block
/// gathered while the cumulative character count stays within `max_bytes`.
/// A grapheme cluster that alone exceeds the budget ends up in an oversized
/// block of its own rather than being torn apart.
pub fn into_blocks(text: &str, max_bytes: usize) -> (r: Vec<String>)
    ensures
        r@.map_values(|b: String| b@) == blocks_of(graphemes_of(text@), max_bytes as nat),
        r@.len() >= 1,
        text@.len() > 0 ==> forall|t: int| 0 <= t < r@.len() ==> (#[trigger] r@[t])@.len() > 0,
{
    let gs = grapheme_split(text);
    let ghost gsv = graphemes_of(text@);
    let ghost m = gs@.map_values(|g: String| g@);
    let mut blocks: Vec<String> = Vec::new();
    if gs.len() == 0 {
        blocks.push(String::new());
        proof {
            assert(blocks@.map_values(|b: String| b@) =~= seq![Seq::<char>::empty()]);
        }
        return blocks;
    }
    proof {
        assert forall|t: int| 0 <= t < m.len() implies (#[trigger] m[t]).len() > 0 by {
            assert(m[t] == gs@[t]@);
        }
    }
    let mut pos: usize = 0;
    let ghost mut emitted: Seq<Seq<char>> = Seq::empty();
    proof {
        assert(emitted + blocks_of(m.skip(0), max_bytes as nat) =~= blocks_of(
            m,
            max_bytes as nat,
        )) by {
            assert(m.skip(0) =~= m);
        }
        assert(blocks@.map_values(|b: String| b@) =~= emitted);
    }
    loop
        invariant_except_break
            blocks@.map_values(|b: String| b@) == emitted,
            emitted + blocks_of(m.skip(pos as int), max_bytes as nat) == blocks_of(
                m,
                max_bytes as nat,
            ),
        invariant
            pos < gs@.len(),
            m == gs@.map_values(|g: String| g@),
            m == gsv,
            forall|t: int| 0 <= t < m.len() ==> (#[trigger] m[t]).len() > 0,
            forall|t: int| 0 <= t < blocks@.len() ==> (#[trigger] blocks@[t])@.len() > 0,
        ensures
            blocks@.map_values(|b: String| b@) == blocks_of(m, max_bytes as nat),
            forall|t: int| 0 <= t < blocks@.len() ==> (#[trigger] blocks@[t])@.len() > 0,
        decreases gs@.len() - pos,
    {
        let ghost suffix = m.skip(pos as int);
        let j = scan_chunk(&gs, pos, max_bytes);
        let ghost k = split_point(suffix, max_bytes as nat);
        if j == pos || j == gs.len() {
            let b = concat_range(&gs, pos, gs.len());
            blocks.push(b);
            proof {
                assert(m.subrange(pos as int, m.len() as int) =~= suffix);
                assert(suffix.len() > 0);
                assert(k == 0 || k == suffix.len());
                assert(blocks_of(suffix, max_bytes as nat) =~= seq![concat_seqs(suffix)]);
                assert(blocks@.map_values(|b2: String| b2@) =~= emitted.push(concat_seqs(suffix)));
                assert(emitted.push(concat_seqs(suffix)) =~= emitted + seq![concat_seqs(suffix)]);
                assert(suffix[0] == m[pos as int]);
                lemma_concat_nonempty(suffix);
            }
            break ;
        } else {
            let b = concat_range(&gs, pos, j);
            blocks.push(b);
            proof {
                assert(suffix.len() > 0);
                assert(0 < k < suffix.len());
                assert(m.subrange(pos as int, j as int) =~= suffix.take(k));
                assert(blocks_of(suffix, max_bytes as nat) == seq![concat_seqs(suffix.take(k))]
                    + blocks_of(suffix.skip(k), max_bytes as nat));
                assert(suffix.skip(k) =~= m.skip(j as int));
                let emitted2 = emitted.push(concat_seqs(suffix.take(k)));
                assert(blocks@.map_values(|b2: String| b2@) =~= emitted2);
                assert(emitted2 + blocks_of(m.skip(j as int), max_bytes as nat) =~= emitted + (
                seq![concat_seqs(suffix.take(k))] + blocks_of(m.skip(j as int), max_bytes as nat)));
                assert(emitted2 + blocks_of(m.skip(j as int), max_bytes as nat) =~= blocks_of(
                    m,
                    max_bytes as nat,
                ));
                assert(suffix.take(k)[0] == m[pos as int]);
                lemma_concat_nonempty(suffix.take(k));
                emitted = emitted2;
            }
            pos = j;
        }
    }
    blocks
}

} // verus!
