//! The proof-tree renderer: an LK derivation as a multi-line text diagram,
//! premises above a dashed inference line labeled with the rule's name and
//! the conclusion centered beneath.

use vstd::prelude::*;
use crate::lk::LK;
use crate::lk::SpecLK;
use crate::lk::view_lk;
use crate::print::spec_print_sequent;

verus! {

/// A run of `n` spaces.
pub open spec fn spec_spaces(n: int) -> Seq<char> {
    Seq::new(n as nat, |i: int| ' ')
}

/// A run of `n` dashes.
pub open spec fn spec_dashes(n: int) -> Seq<char> {
    Seq::new(n as nat, |i: int| '-')
}

/// The number of leading spaces of a line.
pub open spec fn line_prefix(l: Seq<char>) -> int
    decreases l,
{
    if l.len() == 0 || l[0] != ' ' {
        0
    } else {
        1 + line_prefix(l.drop_first())
    }
}

/// The number of trailing spaces of a line.
pub open spec fn line_suffix(l: Seq<char>) -> int
    decreases l,
{
    if l.len() == 0 || l.last() != ' ' {
        0
    } else {
        1 + line_suffix(l.drop_last())
    }
}

/// A rendered block: at least one line, all lines of one width, and a
/// non-space character somewhere in the last line (the conclusion text).
pub open spec fn block_wf(b: Seq<Seq<char>>) -> bool {
    &&& b.len() >= 1
    &&& forall|i: int| 0 <= i < b.len() ==> #[trigger] b[i].len() == b[0].len()
    &&& exists|j: int| 0 <= j < b.last().len() && b.last()[j] != ' '
}

/// Division by two that truncates toward zero, as machine division does.
pub open spec fn tdiv2(d: int) -> int {
    if d >= 0 {
        d / 2
    } else {
        -((-d) / 2)
    }
}

/// Every line of the block, shifted right by `k` spaces.
pub open spec fn shift_lines(b: Seq<Seq<char>>, k: int) -> Seq<Seq<char>> {
    b.map_values(|l: Seq<char>| spec_spaces(k) + l)
}

/// The widest line's width.
pub open spec fn max_width(b: Seq<Seq<char>>) -> int
    decreases b,
{
    if b.len() == 0 {
        0
    } else if b[0].len() >= max_width(b.drop_first()) {
        b[0].len() as int
    } else {
        max_width(b.drop_first())
    }
}

/// Every line padded on the right to width `w`.
pub open spec fn pad_lines(b: Seq<Seq<char>>, w: int) -> Seq<Seq<char>> {
    b.map_values(|l: Seq<char>| l + spec_spaces(w - l.len()))
}

/// The block above padded on top with blank lines of its own width until
/// it has `h` lines.
pub open spec fn pad_top(b: Seq<Seq<char>>, h: int) -> Seq<Seq<char>> {
    Seq::new((h - b.len()) as nat, |i: int| spec_spaces(b[0].len() as int)) + b
}

/// Two blocks of equal height side by side, four spaces apart.
pub open spec fn zip_blocks(l: Seq<Seq<char>>, r: Seq<Seq<char>>) -> Seq<Seq<char>> {
    Seq::new(l.len(), |i: int| l[i] + spec_spaces(4) + r[i])
}

/// The two premise blocks combined: the shorter padded on top with blank
/// lines, then placed side by side.
pub open spec fn combine_blocks(l: Seq<Seq<char>>, r: Seq<Seq<char>>) -> Seq<Seq<char>> {
    let h = if l.len() >= r.len() {
        l.len() as int
    } else {
        r.len() as int
    };
    zip_blocks(pad_top(l, h), pad_top(r, h))
}

/// The parent block with the inference line and the centered conclusion
/// text beneath it, all lines padded to one width. When the conclusion
/// text is narrower than the parent's non-indentation body it is centered
/// over that body; when it is wider, the parent is shifted right instead.
pub open spec fn join_block(p: Seq<Seq<char>>, s: Seq<char>, lab: Seq<char>) -> Seq<Seq<char>> {
    let last = p.last();
    let prefix = line_prefix(last);
    let suffix = line_suffix(last);
    let body = last.len() - prefix - suffix;
    let off0 = tdiv2(body - s.len()) + prefix;
    let p2 = if off0 > 0 {
        p
    } else {
        shift_lines(p, -off0)
    };
    let off = if off0 > 0 {
        off0
    } else {
        0
    };
    let sline = spec_spaces(off) + s;
    let sep = if s.len() > body {
        spec_spaces(off) + spec_dashes(s.len() as int + 1) + lab
    } else {
        spec_spaces(prefix) + spec_dashes(body + 1) + lab
    };
    let all = p2.push(sep).push(sline);
    pad_lines(all, max_width(all))
}

/// The symbolic label of the rule applied at the node.
pub open spec fn spec_label(lk: SpecLK) -> Seq<char> {
    match lk {
        SpecLK::Axiom(_) => seq!['(', 'a', 'x', ')'],
        SpecLK::WeakeningLeft(_, _) => seq!['(', 'w', 'L', ')'],
        SpecLK::WeakeningRight(_, _) => seq!['(', 'w', 'R', ')'],
        SpecLK::ContractionLeft(_, _) => seq!['(', 'c', 'L', ')'],
        SpecLK::ContractionRight(_, _) => seq!['(', 'c', 'R', ')'],
        SpecLK::ExchangeLeft(_, _) => seq!['(', 'x', 'L', ')'],
        SpecLK::ExchangeRight(_, _) => seq!['(', 'x', 'R', ')'],
        SpecLK::AndLeft1(_, _) => seq!['(', '\u{2227}', 'L', '1', ')'],
        SpecLK::AndLeft2(_, _) => seq!['(', '\u{2227}', 'L', '2', ')'],
        SpecLK::AndRight(_, _, _) => seq!['(', '\u{2227}', 'R', ')'],
        SpecLK::OrLeft(_, _, _) => seq!['(', '\u{2228}', 'L', ')'],
        SpecLK::OrRight1(_, _) => seq!['(', '\u{2228}', 'R', '1', ')'],
        SpecLK::OrRight2(_, _) => seq!['(', '\u{2228}', 'R', '2', ')'],
        SpecLK::ImpliesLeft(_, _, _) => seq!['(', '\u{2192}', 'L', ')'],
        SpecLK::ImpliesRight(_, _) => seq!['(', '\u{2192}', 'R', ')'],
        SpecLK::NotLeft(_, _) => seq!['(', '\u{00ac}', 'L', ')'],
        SpecLK::NotRight(_, _) => seq!['(', '\u{00ac}', 'R', ')'],
        SpecLK::ForallLeft(_, _) => seq!['(', '\u{2200}', 'L', ')'],
        SpecLK::ForallRight(_, _) => seq!['(', '\u{2200}', 'R', ')'],
        SpecLK::ExistsLeft(_, _) => seq!['(', '\u{2203}', 'L', ')'],
        SpecLK::ExistsRight(_, _) => seq!['(', '\u{2203}', 'R', ')'],
        SpecLK::Cut(_, _, _) => seq!['(', 'C', 'u', 't', ')'],
    }
}

/// The rendered block of a derivation: an axiom is its sequent's one line,
/// a one-premise rule joins its premise's block with its own sequent, a
/// two-premise rule first combines the premises' blocks side by side.
pub open spec fn spec_render(lk: SpecLK) -> Seq<Seq<char>>
    decreases lk,
{
    match lk {
        SpecLK::Axiom(s) => seq![spec_print_sequent(s)],
        SpecLK::WeakeningLeft(p, s) => join_block(
            spec_render(*p),
            spec_print_sequent(s),
            spec_label(lk),
        ),
        SpecLK::WeakeningRight(p, s) => join_block(
            spec_render(*p),
            spec_print_sequent(s),
            spec_label(lk),
        ),
        SpecLK::ContractionLeft(p, s) => join_block(
            spec_render(*p),
            spec_print_sequent(s),
            spec_label(lk),
        ),
        SpecLK::ContractionRight(p, s) => join_block(
            spec_render(*p),
            spec_print_sequent(s),
            spec_label(lk),
        ),
        SpecLK::ExchangeLeft(p, s) => join_block(
            spec_render(*p),
            spec_print_sequent(s),
            spec_label(lk),
        ),
        SpecLK::ExchangeRight(p, s) => join_block(
            spec_render(*p),
            spec_print_sequent(s),
            spec_label(lk),
        ),
        SpecLK::AndLeft1(p, s) => join_block(spec_render(*p), spec_print_sequent(s), spec_label(lk)),
        SpecLK::AndLeft2(p, s) => join_block(spec_render(*p), spec_print_sequent(s), spec_label(lk)),
        SpecLK::AndRight(l, r, s) => join_block(
            combine_blocks(spec_render(*l), spec_render(*r)),
            spec_print_sequent(s),
            spec_label(lk),
        ),
        SpecLK::OrLeft(l, r, s) => join_block(
            combine_blocks(spec_render(*l), spec_render(*r)),
            spec_print_sequent(s),
            spec_label(lk),
        ),
        SpecLK::OrRight1(p, s) => join_block(spec_render(*p), spec_print_sequent(s), spec_label(lk)),
        SpecLK::OrRight2(p, s) => join_block(spec_render(*p), spec_print_sequent(s), spec_label(lk)),
        SpecLK::ImpliesLeft(l, r, s) => join_block(
            combine_blocks(spec_render(*l), spec_render(*r)),
            spec_print_sequent(s),
            spec_label(lk),
        ),
        SpecLK::ImpliesRight(p, s) => join_block(
            spec_render(*p),
            spec_print_sequent(s),
            spec_label(lk),
        ),
        SpecLK::NotLeft(p, s) => join_block(spec_render(*p), spec_print_sequent(s), spec_label(lk)),
        SpecLK::NotRight(p, s) => join_block(spec_render(*p), spec_print_sequent(s), spec_label(lk)),
        SpecLK::ForallLeft(p, s) => join_block(
            spec_render(*p),
            spec_print_sequent(s),
            spec_label(lk),
        ),
        SpecLK::ForallRight(p, s) => join_block(
            spec_render(*p),
            spec_print_sequent(s),
            spec_label(lk),
        ),
        SpecLK::ExistsLeft(p, s) => join_block(
            spec_render(*p),
            spec_print_sequent(s),
            spec_label(lk),
        ),
        SpecLK::ExistsRight(p, s) => join_block(
            spec_render(*p),
            spec_print_sequent(s),
            spec_label(lk),
        ),
        SpecLK::Cut(l, r, s) => join_block(
            combine_blocks(spec_render(*l), spec_render(*r)),
            spec_print_sequent(s),
            spec_label(lk),
        ),
    }
}

/// The block's lines joined with newlines.
pub open spec fn join_lines(b: Seq<Seq<char>>) -> Seq<char>
    decreases b,
{
    if b.len() == 0 {
        Seq::empty()
    } else if b.len() == 1 {
        b[0]
    } else {
        b[0] + seq!['\n'] + join_lines(b.drop_first())
    }
}

/// The full rendered text of a derivation.
pub open spec fn spec_render_text(lk: SpecLK) -> Seq<char> {
    join_lines(spec_render(lk))
}

} // verus!

verus! {

/// Models of the lines of a block, elementwise.
pub open spec fn view_lines(ls: Seq<String>) -> Seq<Seq<char>>
    decreases ls,
{
    if ls.len() == 0 {
        Seq::empty()
    } else {
        seq![ls[0]@] + view_lines(ls.drop_first())
    }
}

/// `view_lines` maps the view over the sequence.
pub proof fn lemma_view_lines(ls: Seq<String>)
    ensures
        view_lines(ls).len() == ls.len(),
        forall|i: int| 0 <= i < ls.len() ==> view_lines(ls)[i] == ls[i]@,
    decreases ls,
{
    if ls.len() > 0 {
        lemma_view_lines(ls.drop_first());
    }
}

/// A string of `n` spaces.
fn spaces_string(n: usize) -> (r: String)
    ensures
        r@ == spec_spaces(n as int),
{
    let mut out = String::new();
    for i in 0..n
        invariant
            out@ =~= spec_spaces(i as int),
    {
        out.append(" ");
        proof {
            reveal_strlit(" ");
            assert(out@ =~= spec_spaces(i + 1));
        }
    }
    proof {
        assert(out@ =~= spec_spaces(n as int));
    }
    out
}

/// Appends `n` dashes and then one more.
fn append_dashes_plus_one(out: &mut String, n: usize)
    ensures
        final(out)@ == old(out)@ + spec_dashes(n as int + 1),
{
    let ghost out0 = old(out)@;
    for i in 0..n
        invariant
            out@ =~= out0 + spec_dashes(i as int),
    {
        out.append("-");
        proof {
            reveal_strlit("-");
            assert(out@ =~= out0 + spec_dashes(i + 1));
        }
    }
    out.append("-");
    proof {
        reveal_strlit("-");
        assert(out@ =~= out0 + spec_dashes(n as int + 1));
    }
}

/// If the first `i` characters are spaces and the character at `i` (if
/// any) is not, the leading-space count is `i`.
proof fn lemma_line_prefix_char(l: Seq<char>, i: int)
    requires
        0 <= i <= l.len(),
        forall|k: int| 0 <= k < i ==> l[k] == ' ',
        i == l.len() || l[i] != ' ',
    ensures
        line_prefix(l) == i,
    decreases l,
{
    if i == 0 {
    } else {
        assert(l[0] == ' ');
        lemma_line_prefix_char(l.drop_first(), i - 1);
    }
}

/// If the last `i` characters are spaces and the character before them
/// (if any) is not, the trailing-space count is `i`.
proof fn lemma_line_suffix_char(l: Seq<char>, i: int)
    requires
        0 <= i <= l.len(),
        forall|k: int| l.len() - i <= k < l.len() ==> l[k] == ' ',
        i == l.len() || l[l.len() - 1 - i] != ' ',
    ensures
        line_suffix(l) == i,
    decreases l,
{
    if i == 0 {
    } else {
        assert(l.last() == ' ');
        lemma_line_suffix_char(l.drop_last(), i - 1);
    }
}

/// A non-space at position `j` bounds the leading-space count by `j`.
proof fn lemma_line_prefix_le(l: Seq<char>, j: int)
    requires
        0 <= j < l.len(),
        l[j] != ' ',
    ensures
        line_prefix(l) <= j,
    decreases l,
{
    if l.len() == 0 || l[0] != ' ' {
    } else {
        lemma_line_prefix_le(l.drop_first(), j - 1);
    }
}

/// A non-space at position `j` bounds the trailing-space count.
proof fn lemma_line_suffix_le(l: Seq<char>, j: int)
    requires
        0 <= j < l.len(),
        l[j] != ' ',
    ensures
        line_suffix(l) <= l.len() - 1 - j,
    decreases l,
{
    if l.len() == 0 || l.last() != ' ' {
    } else {
        lemma_line_suffix_le(l.drop_last(), j);
    }
}

/// The number of leading spaces of a line.
fn prefix_spaces(l: &str) -> (r: usize)
    ensures
        r as int == line_prefix(l@),
        r <= l@.len(),
{
    let n = l.unicode_len();
    let mut i: usize = 0;
    while i < n && l.get_char(i) == ' '
        invariant
            0 <= i <= n,
            n == l@.len(),
            forall|k: int| 0 <= k < i ==> l@[k] == ' ',
        decreases n - i,
    {
        i = i + 1;
    }
    proof {
        lemma_line_prefix_char(l@, i as int);
    }
    i
}

/// The number of trailing spaces of a line.
fn suffix_spaces(l: &str) -> (r: usize)
    ensures
        r as int == line_suffix(l@),
        r <= l@.len(),
{
    let n = l.unicode_len();
    let mut i: usize = 0;
    while i < n && l.get_char(n - 1 - i) == ' '
        invariant
            0 <= i <= n,
            n == l@.len(),
            forall|k: int| n - i <= k < n ==> l@[k] == ' ',
        decreases n - i,
    {
        i = i + 1;
    }
    proof {
        lemma_line_suffix_char(l@, i as int);
    }
    i
}

/// Every line's width is bounded by the widest.
proof fn lemma_max_width_ge(b: Seq<Seq<char>>, i: int)
    requires
        0 <= i < b.len(),
    ensures
        b[i].len() <= max_width(b),
    decreases b,
{
    if i > 0 {
        lemma_max_width_ge(b.drop_first(), i - 1);
    }
}

/// Splitting off the head of the remaining suffix, for [`max_width`].
proof fn lemma_max_width_skip(b: Seq<Seq<char>>, i: int)
    requires
        0 <= i < b.len(),
    ensures
        max_width(b.skip(i)) == if b[i].len() >= max_width(b.skip(i + 1)) {
            b[i].len() as int
        } else {
            max_width(b.skip(i + 1))
        },
{
    assert(b.skip(i).drop_first() =~= b.skip(i + 1));
    assert(b.skip(i)[0] == b[i]);
}

/// The widest line's width is never negative.
proof fn lemma_max_width_nonneg(b: Seq<Seq<char>>)
    ensures
        max_width(b) >= 0,
    decreases b,
{
    if b.len() > 0 {
        lemma_max_width_nonneg(b.drop_first());
    }
}

/// Every line of the block, shifted right by `k` spaces.
fn shift_vec(lines: &Vec<String>, k: usize) -> (r: Vec<String>)
    ensures
        view_lines(r@) == shift_lines(view_lines(lines@), k as int),
{
    proof {
        lemma_view_lines(lines@);
    }
    let pad = spaces_string(k);
    let mut out: Vec<String> = Vec::new();
    for i in 0..lines.len()
        invariant
            out@.len() == i,
            pad@ == spec_spaces(k as int),
            forall|j: int| 0 <= j < i ==> out@[j]@ == spec_spaces(k as int) + lines@[j]@,
            forall|j: int| 0 <= j < lines@.len() ==> view_lines(lines@)[j] == lines@[j]@,
            view_lines(lines@).len() == lines@.len(),
    {
        let mut line = pad.clone();
        line.append(lines[i].as_str());
        out.push(line);
    }
    proof {
        lemma_view_lines(out@);
        assert(view_lines(out@) =~= shift_lines(view_lines(lines@), k as int));
    }
    out
}

/// Joins the parent block, the labeled inference line, and the centered
/// conclusion text, padding all lines to one width.
fn join_vec(parent: Vec<String>, s: &String, lab: &str) -> (r: Vec<String>)
    requires
        block_wf(view_lines(parent@)),
    ensures
        view_lines(r@) == join_block(view_lines(parent@), s@, lab@),
{
    let ghost vp = view_lines(parent@);
    proof {
        lemma_view_lines(parent@);
    }
    let last = &parent[parent.len() - 1];
    let w = last.as_str().unicode_len();
    let prefix = prefix_spaces(last.as_str());
    let suffix = suffix_spaces(last.as_str());
    proof {
        assert(vp.last() == last@);
        let j = choose|j: int| 0 <= j < vp.last().len() && vp.last()[j] != ' ';
        lemma_line_prefix_le(vp.last(), j);
        lemma_line_suffix_le(vp.last(), j);
    }
    let body = w - prefix - suffix;
    let slen = s.as_str().unicode_len();
    let ghost off0 = tdiv2(body as int - slen as int) + prefix;
    let mut p2: Vec<String>;
    let off: usize;
    if body >= slen {
        off = (body - slen) / 2 + prefix;
        p2 = parent;
        proof {
            assert(off as int == off0);
            if off == 0 {
                assert(shift_lines(vp, 0) =~= vp);
            }
        }
    } else {
        let h = (slen - body) / 2;
        proof {
            assert(tdiv2(body as int - slen as int) == -(((slen - body) as int) / 2));
        }
        if prefix >= h {
            off = prefix - h;
            p2 = parent;
            proof {
                assert(off as int == off0);
                if off == 0 {
                    assert(shift_lines(vp, 0) =~= vp);
                }
            }
        } else {
            off = 0;
            p2 = shift_vec(&parent, h - prefix);
            proof {
                assert(off0 <= 0);
                assert((h - prefix) as int == -off0);
            }
        }
    }
    let ghost vp2 = view_lines(p2@);
    proof {
        lemma_view_lines(p2@);
    }
    // the inference line
    let mut sep: String;
    if slen > body {
        sep = spaces_string(off);
        append_dashes_plus_one(&mut sep, slen);
    } else {
        sep = spaces_string(prefix);
        append_dashes_plus_one(&mut sep, body);
    }
    sep.append(lab);
    // the centered conclusion line
    let mut sline = spaces_string(off);
    sline.append(s.as_str());
    let ghost vsep = sep@;
    let ghost vsline = sline@;
    p2.push(sep);
    p2.push(sline);
    let ghost vall = view_lines(p2@);
    proof {
        lemma_view_lines(p2@);
        assert(vall =~= vp2.push(vsep).push(vsline));
        lemma_max_width_nonneg(vall);
    }
    // pad every line to the block width
    let mut m: usize = 0;
    proof {
        assert(vall.skip(0) =~= vall);
    }
    let n = p2.len();
    for i in 0..n
        invariant
            n == p2@.len(),
            vall == view_lines(p2@),
            vall.len() == p2@.len(),
            forall|j: int| 0 <= j < p2@.len() ==> vall[j] == p2@[j]@,
            max_width(vall) == if m as int >= max_width(vall.skip(i as int)) {
                m as int
            } else {
                max_width(vall.skip(i as int))
            },
    {
        let li = p2[i].as_str().unicode_len();
        proof {
            lemma_max_width_skip(vall, i as int);
        }
        if li > m {
            m = li;
        }
    }
    proof {
        assert(vall.skip(n as int) =~= Seq::<Seq<char>>::empty());
        assert(m as int == max_width(vall));
    }
    let mut out: Vec<String> = Vec::new();
    for i in 0..n
        invariant
            n == p2@.len(),
            vall == view_lines(p2@),
            vall.len() == p2@.len(),
            forall|j: int| 0 <= j < p2@.len() ==> vall[j] == p2@[j]@,
            m as int == max_width(vall),
            out@.len() == i,
            forall|j: int|
                0 <= j < i ==> out@[j]@ == vall[j] + spec_spaces(m - vall[j].len()),
    {
        proof {
            lemma_max_width_ge(vall, i as int);
        }
        let li = p2[i].as_str().unicode_len();
        let mut line = p2[i].clone();
        let padding = spaces_string(m - li);
        line.append(padding.as_str());
        out.push(line);
    }
    proof {
        lemma_view_lines(out@);
        assert(view_lines(out@) =~= pad_lines(vall, max_width(vall)));
        assert(view_lines(out@) =~= join_block(vp, s@, lab@));
    }
    out
}

/// Combines two premise blocks: pads the shorter on top with blank lines
/// of its own width, then places them side by side four spaces apart.
fn combine_vec(l: &Vec<String>, r: &Vec<String>) -> (res: Vec<String>)
    requires
        block_wf(view_lines(l@)),
        block_wf(view_lines(r@)),
    ensures
        view_lines(res@) == combine_blocks(view_lines(l@), view_lines(r@)),
{
    let ghost vl = view_lines(l@);
    let ghost vr = view_lines(r@);
    proof {
        lemma_view_lines(l@);
        lemma_view_lines(r@);
    }
    let h = if l.len() >= r.len() {
        l.len()
    } else {
        r.len()
    };
    let wl = l[0].as_str().unicode_len();
    let wr = r[0].as_str().unicode_len();
    let mut left: Vec<String> = Vec::new();
    for i in 0..h - l.len()
        invariant
            left@.len() == i,
            wl == vl[0].len(),
            forall|j: int| 0 <= j < i ==> left@[j]@ == spec_spaces(vl[0].len() as int),
    {
        left.push(spaces_string(wl));
    }
    for i in 0..l.len()
        invariant
            left@.len() == h - l@.len() + i,
            h >= l@.len(),
            forall|j: int|
                0 <= j < h - l@.len() ==> left@[j]@ == spec_spaces(vl[0].len() as int),
            forall|j: int| 0 <= j < i ==> left@[h - l@.len() + j]@ == l@[j]@,
            vl == view_lines(l@),
            vl.len() == l@.len(),
            forall|j: int| 0 <= j < l@.len() ==> vl[j] == l@[j]@,
    {
        left.push(l[i].clone());
    }
    let mut right: Vec<String> = Vec::new();
    for i in 0..h - r.len()
        invariant
            right@.len() == i,
            wr == vr[0].len(),
            forall|j: int| 0 <= j < i ==> right@[j]@ == spec_spaces(vr[0].len() as int),
    {
        right.push(spaces_string(wr));
    }
    for i in 0..r.len()
        invariant
            right@.len() == h - r@.len() + i,
            h >= r@.len(),
            forall|j: int|
                0 <= j < h - r@.len() ==> right@[j]@ == spec_spaces(vr[0].len() as int),
            forall|j: int| 0 <= j < i ==> right@[h - r@.len() + j]@ == r@[j]@,
            vr == view_lines(r@),
            vr.len() == r@.len(),
            forall|j: int| 0 <= j < r@.len() ==> vr[j] == r@[j]@,
    {
        right.push(r[i].clone());
    }
    let ghost vleft = view_lines(left@);
    let ghost vright = view_lines(right@);
    proof {
        lemma_view_lines(left@);
        lemma_view_lines(right@);
        let hh = if vl.len() >= vr.len() {
            vl.len() as int
        } else {
            vr.len() as int
        };
        assert(vleft =~= pad_top(vl, hh));
        assert(vright =~= pad_top(vr, hh));
    }
    let mut out: Vec<String> = Vec::new();
    for i in 0..h
        invariant
            h == left@.len(),
            h == right@.len(),
            out@.len() == i,
            vleft == view_lines(left@),
            vright == view_lines(right@),
            vleft.len() == left@.len(),
            vright.len() == right@.len(),
            forall|j: int| 0 <= j < left@.len() ==> vleft[j] == left@[j]@,
            forall|j: int| 0 <= j < right@.len() ==> vright[j] == right@[j]@,
            forall|j: int|
                0 <= j < i ==> out@[j]@ == vleft[j] + spec_spaces(4) + vright[j],
    {
        let mut line = left[i].clone();
        line.append("    ");
        line.append(right[i].as_str());
        proof {
            reveal_strlit("    ");
            assert(line@ =~= vleft[i as int] + spec_spaces(4) + vright[i as int]);
        }
        out.push(line);
    }
    proof {
        lemma_view_lines(out@);
        assert(view_lines(out@) =~= zip_blocks(vleft, vright));
        assert(view_lines(out@) =~= combine_blocks(vl, vr));
    }
    out
}

} // verus!

verus! {

/// A sequent's text always holds the entailment arrow, a non-space.
proof fn lemma_print_sequent_nonspace(s: crate::sequent::SpecSequent)
    ensures
        exists|j: int|
            0 <= j < spec_print_sequent(s).len() && spec_print_sequent(s)[j] != ' ',
{
    let txt = spec_print_sequent(s);
    let j = crate::print::spec_print_side(s.antecedent).len() + 1;
    assert(txt[j as int] == '\u{21d2}');
}

/// Joining a well-formed parent block with a non-blank conclusion text
/// yields a well-formed block.
proof fn lemma_join_wf(p: Seq<Seq<char>>, s: Seq<char>, lab: Seq<char>)
    requires
        block_wf(p),
        exists|j: int| 0 <= j < s.len() && s[j] != ' ',
    ensures
        block_wf(join_block(p, s, lab)),
{
    let last = p.last();
    let prefix = line_prefix(last);
    let suffix = line_suffix(last);
    let body = last.len() - prefix - suffix;
    let off0 = tdiv2(body - s.len()) + prefix;
    let p2 = if off0 > 0 {
        p
    } else {
        shift_lines(p, -off0)
    };
    let off = if off0 > 0 {
        off0
    } else {
        0
    };
    let sline = spec_spaces(off) + s;
    let sep = if s.len() > body {
        spec_spaces(off) + spec_dashes(s.len() as int + 1) + lab
    } else {
        spec_spaces(prefix) + spec_dashes(body + 1) + lab
    };
    let all = p2.push(sep).push(sline);
    let w = max_width(all);
    let res = pad_lines(all, w);
    assert(res.len() == all.len());
    lemma_max_width_nonneg(all);
    assert forall|i: int| 0 <= i < res.len() implies #[trigger] res[i].len() == res[0].len() by {
        lemma_max_width_ge(all, i);
        lemma_max_width_ge(all, 0);
        assert(res[i].len() == w);
        assert(res[0].len() == w);
    };
    let j = choose|j: int| 0 <= j < s.len() && s[j] != ' ';
    lemma_max_width_ge(all, all.len() - 1);
    assert(res.last() == sline + spec_spaces(w - sline.len()));
    assert(res.last()[off + j] == s[j]);
    assert(0 <= off + j < res.last().len());
}

/// Combining two well-formed blocks yields a well-formed block.
proof fn lemma_combine_wf(l: Seq<Seq<char>>, r: Seq<Seq<char>>)
    requires
        block_wf(l),
        block_wf(r),
    ensures
        block_wf(combine_blocks(l, r)),
{
    let h = if l.len() >= r.len() {
        l.len() as int
    } else {
        r.len() as int
    };
    let pl = pad_top(l, h);
    let pr = pad_top(r, h);
    let res = zip_blocks(pl, pr);
    assert(res.len() == h);
    assert forall|i: int| 0 <= i < pl.len() implies #[trigger] pl[i].len() == l[0].len() by {
        if i >= h - l.len() {
            assert(pl[i] == l[i - (h - l.len())]);
        }
    };
    assert forall|i: int| 0 <= i < pr.len() implies #[trigger] pr[i].len() == r[0].len() by {
        if i >= h - r.len() {
            assert(pr[i] == r[i - (h - r.len())]);
        }
    };
    assert forall|i: int| 0 <= i < res.len() implies #[trigger] res[i].len() == res[0].len() by {
        assert(res[i] == pl[i] + spec_spaces(4) + pr[i]);
        assert(res[0] == pl[0] + spec_spaces(4) + pr[0]);
    };
    assert(pl.last() == l.last());
    let j = choose|j: int| 0 <= j < l.last().len() && l.last()[j] != ' ';
    assert(res.last() == pl.last() + spec_spaces(4) + pr.last());
    assert(res.last()[j] == l.last()[j]);
}

/// Every rendered derivation is a well-formed block.
pub proof fn lemma_render_wf(lk: SpecLK)
    ensures
        block_wf(spec_render(lk)),
    decreases lk,
{
    match lk {
        SpecLK::Axiom(s) => {
            lemma_print_sequent_nonspace(s);
            let b = spec_render(lk);
            assert(b.last() == spec_print_sequent(s));
        },
        SpecLK::WeakeningLeft(p, s) => {
            lemma_render_wf(*p);
            lemma_print_sequent_nonspace(s);
            lemma_join_wf(spec_render(*p), spec_print_sequent(s), spec_label(lk));
        },
        SpecLK::WeakeningRight(p, s) => {
            lemma_render_wf(*p);
            lemma_print_sequent_nonspace(s);
            lemma_join_wf(spec_render(*p), spec_print_sequent(s), spec_label(lk));
        },
        SpecLK::ContractionLeft(p, s) => {
            lemma_render_wf(*p);
            lemma_print_sequent_nonspace(s);
            lemma_join_wf(spec_render(*p), spec_print_sequent(s), spec_label(lk));
        },
        SpecLK::ContractionRight(p, s) => {
            lemma_render_wf(*p);
            lemma_print_sequent_nonspace(s);
            lemma_join_wf(spec_render(*p), spec_print_sequent(s), spec_label(lk));
        },
        SpecLK::ExchangeLeft(p, s) => {
            lemma_render_wf(*p);
            lemma_print_sequent_nonspace(s);
            lemma_join_wf(spec_render(*p), spec_print_sequent(s), spec_label(lk));
        },
        SpecLK::ExchangeRight(p, s) => {
            lemma_render_wf(*p);
            lemma_print_sequent_nonspace(s);
            lemma_join_wf(spec_render(*p), spec_print_sequent(s), spec_label(lk));
        },
        SpecLK::AndLeft1(p, s) => {
            lemma_render_wf(*p);
            lemma_print_sequent_nonspace(s);
            lemma_join_wf(spec_render(*p), spec_print_sequent(s), spec_label(lk));
        },
        SpecLK::AndLeft2(p, s) => {
            lemma_render_wf(*p);
            lemma_print_sequent_nonspace(s);
            lemma_join_wf(spec_render(*p), spec_print_sequent(s), spec_label(lk));
        },
        SpecLK::AndRight(l, r, s) => {
            lemma_render_wf(*l);
            lemma_render_wf(*r);
            lemma_combine_wf(spec_render(*l), spec_render(*r));
            lemma_print_sequent_nonspace(s);
            lemma_join_wf(
                combine_blocks(spec_render(*l), spec_render(*r)),
                spec_print_sequent(s),
                spec_label(lk),
            );
        },
        SpecLK::OrLeft(l, r, s) => {
            lemma_render_wf(*l);
            lemma_render_wf(*r);
            lemma_combine_wf(spec_render(*l), spec_render(*r));
            lemma_print_sequent_nonspace(s);
            lemma_join_wf(
                combine_blocks(spec_render(*l), spec_render(*r)),
                spec_print_sequent(s),
                spec_label(lk),
            );
        },
        SpecLK::OrRight1(p, s) => {
            lemma_render_wf(*p);
            lemma_print_sequent_nonspace(s);
            lemma_join_wf(spec_render(*p), spec_print_sequent(s), spec_label(lk));
        },
        SpecLK::OrRight2(p, s) => {
            lemma_render_wf(*p);
            lemma_print_sequent_nonspace(s);
            lemma_join_wf(spec_render(*p), spec_print_sequent(s), spec_label(lk));
        },
        SpecLK::ImpliesLeft(l, r, s) => {
            lemma_render_wf(*l);
            lemma_render_wf(*r);
            lemma_combine_wf(spec_render(*l), spec_render(*r));
            lemma_print_sequent_nonspace(s);
            lemma_join_wf(
                combine_blocks(spec_render(*l), spec_render(*r)),
                spec_print_sequent(s),
                spec_label(lk),
            );
        },
        SpecLK::ImpliesRight(p, s) => {
            lemma_render_wf(*p);
            lemma_print_sequent_nonspace(s);
            lemma_join_wf(spec_render(*p), spec_print_sequent(s), spec_label(lk));
        },
        SpecLK::NotLeft(p, s) => {
            lemma_render_wf(*p);
            lemma_print_sequent_nonspace(s);
            lemma_join_wf(spec_render(*p), spec_print_sequent(s), spec_label(lk));
        },
        SpecLK::NotRight(p, s) => {
            lemma_render_wf(*p);
            lemma_print_sequent_nonspace(s);
            lemma_join_wf(spec_render(*p), spec_print_sequent(s), spec_label(lk));
        },
        SpecLK::ForallLeft(p, s) => {
            lemma_render_wf(*p);
            lemma_print_sequent_nonspace(s);
            lemma_join_wf(spec_render(*p), spec_print_sequent(s), spec_label(lk));
        },
        SpecLK::ForallRight(p, s) => {
            lemma_render_wf(*p);
            lemma_print_sequent_nonspace(s);
            lemma_join_wf(spec_render(*p), spec_print_sequent(s), spec_label(lk));
        },
        SpecLK::ExistsLeft(p, s) => {
            lemma_render_wf(*p);
            lemma_print_sequent_nonspace(s);
            lemma_join_wf(spec_render(*p), spec_print_sequent(s), spec_label(lk));
        },
        SpecLK::ExistsRight(p, s) => {
            lemma_render_wf(*p);
            lemma_print_sequent_nonspace(s);
            lemma_join_wf(spec_render(*p), spec_print_sequent(s), spec_label(lk));
        },
        SpecLK::Cut(l, r, s) => {
            lemma_render_wf(*l);
            lemma_render_wf(*r);
            lemma_combine_wf(spec_render(*l), spec_render(*r));
            lemma_print_sequent_nonspace(s);
            lemma_join_wf(
                combine_blocks(spec_render(*l), spec_render(*r)),
                spec_print_sequent(s),
                spec_label(lk),
            );
        },
    }
}

/// Splitting off the head of the remaining suffix, for [`join_lines`],
/// when more lines follow.
proof fn lemma_join_lines_skip(b: Seq<Seq<char>>, i: int)
    requires
        0 <= i < b.len() - 1,
    ensures
        join_lines(b.skip(i)) == b[i] + seq!['\n'] + join_lines(b.skip(i + 1)),
{
    assert(b.skip(i).drop_first() =~= b.skip(i + 1));
    assert(b.skip(i)[0] == b[i]);
    assert(b.skip(i).len() == b.len() - i);
}

impl LK {
    /// The symbolic label of the rule applied at this node.
    fn get_label(&self) -> (r: &'static str)
        ensures
            r@ == spec_label(self@),
    {
        match self {
            LK::Axiom(_) => {
                proof {
                    reveal_strlit("(ax)");
                }
                "(ax)"
            },
            LK::WeakeningLeft(_, _) => {
                proof {
                    reveal_strlit("(wL)");
                }
                "(wL)"
            },
            LK::WeakeningRight(_, _) => {
                proof {
                    reveal_strlit("(wR)");
                }
                "(wR)"
            },
            LK::ContractionLeft(_, _) => {
                proof {
                    reveal_strlit("(cL)");
                }
                "(cL)"
            },
            LK::ContractionRight(_, _) => {
                proof {
                    reveal_strlit("(cR)");
                }
                "(cR)"
            },
            LK::ExchangeLeft(_, _) => {
                proof {
                    reveal_strlit("(xL)");
                }
                "(xL)"
            },
            LK::ExchangeRight(_, _) => {
                proof {
                    reveal_strlit("(xR)");
                }
                "(xR)"
            },
            LK::AndLeft1(_, _) => {
                proof {
                    reveal_strlit("(\u{2227}L1)");
                }
                "(\u{2227}L1)"
            },
            LK::AndLeft2(_, _) => {
                proof {
                    reveal_strlit("(\u{2227}L2)");
                }
                "(\u{2227}L2)"
            },
            LK::AndRight(_, _, _) => {
                proof {
                    reveal_strlit("(\u{2227}R)");
                }
                "(\u{2227}R)"
            },
            LK::OrLeft(_, _, _) => {
                proof {
                    reveal_strlit("(\u{2228}L)");
                }
                "(\u{2228}L)"
            },
            LK::OrRight1(_, _) => {
                proof {
                    reveal_strlit("(\u{2228}R1)");
                }
                "(\u{2228}R1)"
            },
            LK::OrRight2(_, _) => {
                proof {
                    reveal_strlit("(\u{2228}R2)");
                }
                "(\u{2228}R2)"
            },
            LK::ImpliesLeft(_, _, _) => {
                proof {
                    reveal_strlit("(\u{2192}L)");
                }
                "(\u{2192}L)"
            },
            LK::ImpliesRight(_, _) => {
                proof {
                    reveal_strlit("(\u{2192}R)");
                }
                "(\u{2192}R)"
            },
            LK::NotLeft(_, _) => {
                proof {
                    reveal_strlit("(\u{00ac}L)");
                }
                "(\u{00ac}L)"
            },
            LK::NotRight(_, _) => {
                proof {
                    reveal_strlit("(\u{00ac}R)");
                }
                "(\u{00ac}R)"
            },
            LK::ForallLeft(_, _) => {
                proof {
                    reveal_strlit("(\u{2200}L)");
                }
                "(\u{2200}L)"
            },
            LK::ForallRight(_, _) => {
                proof {
                    reveal_strlit("(\u{2200}R)");
                }
                "(\u{2200}R)"
            },
            LK::ExistsLeft(_, _) => {
                proof {
                    reveal_strlit("(\u{2203}L)");
                }
                "(\u{2203}L)"
            },
            LK::ExistsRight(_, _) => {
                proof {
                    reveal_strlit("(\u{2203}R)");
                }
                "(\u{2203}R)"
            },
            LK::Cut(_, _, _) => {
                proof {
                    reveal_strlit("(Cut)");
                }
                "(Cut)"
            },
        }
    }

    /// The lines of the rendered diagram of this derivation.
    fn render_lines(&self) -> (r: Vec<String>)
        ensures
            view_lines(r@) == spec_render(self@),
        decreases self,
    {
        match self {
            LK::Axiom(s) => {
                let mut out: Vec<String> = Vec::new();
                out.push(s.to_string());
                proof {
                    lemma_view_lines(out@);
                    assert(view_lines(out@) =~= spec_render(self@));
                }
                out
            },
            LK::WeakeningLeft(p, s)
            | LK::WeakeningRight(p, s)
            | LK::ContractionLeft(p, s)
            | LK::ContractionRight(p, s)
            | LK::ExchangeLeft(p, s)
            | LK::ExchangeRight(p, s)
            | LK::AndLeft1(p, s)
            | LK::AndLeft2(p, s)
            | LK::OrRight1(p, s)
            | LK::OrRight2(p, s)
            | LK::ImpliesRight(p, s)
            | LK::NotLeft(p, s)
            | LK::NotRight(p, s)
            | LK::ForallLeft(p, s)
            | LK::ForallRight(p, s)
            | LK::ExistsLeft(p, s)
            | LK::ExistsRight(p, s) => {
                let pl = p.render_lines();
                proof {
                    lemma_render_wf(view_lk(**p));
                }
                let cs = s.to_string();
                let lab = self.get_label();
                join_vec(pl, &cs, lab)
            },
            LK::AndRight(l, r, s)
            | LK::OrLeft(l, r, s)
            | LK::ImpliesLeft(l, r, s)
            | LK::Cut(l, r, s) => {
                let ll = l.render_lines();
                let rl = r.render_lines();
                proof {
                    lemma_render_wf(view_lk(**l));
                    lemma_render_wf(view_lk(**r));
                }
                let combined = combine_vec(&ll, &rl);
                proof {
                    lemma_combine_wf(view_lines(ll@), view_lines(rl@));
                }
                let cs = s.to_string();
                let lab = self.get_label();
                join_vec(combined, &cs, lab)
            },
        }
    }

    /// The rendered diagram of this derivation: premises above labeled
    /// inference lines, conclusions centered beneath, lines separated by
    /// newlines.
    pub fn to_string(&self) -> (r: String)
        ensures
            r@ == spec_render_text(self@),
    {
        let lines = self.render_lines();
        let ghost v = view_lines(lines@);
        proof {
            lemma_render_wf(self@);
            lemma_view_lines(lines@);
            assert(v.skip(0) =~= v);
        }
        let mut out = String::new();
        let n = lines.len();
        for i in 0..n
            invariant
                n == lines@.len(),
                n >= 1,
                v == view_lines(lines@),
                v.len() == lines@.len(),
                forall|j: int| 0 <= j < lines@.len() ==> v[j] == lines@[j]@,
                out@ + join_lines(v.skip(i as int)) == join_lines(v),
        {
            out.append(lines[i].as_str());
            if i + 1 < n {
                out.append("\n");
                proof {
                    reveal_strlit("\n");
                    lemma_join_lines_skip(v, i as int);
                    assert(out@ + join_lines(v.skip(i + 1)) =~= join_lines(v));
                }
            } else {
                proof {
                    assert(v.skip(i as int).len() == 1);
                    assert(v.skip(i as int)[0] == v[i as int]);
                    assert(v.skip(i + 1) =~= Seq::<Seq<char>>::empty());
                    assert(out@ + join_lines(v.skip(i + 1)) =~= join_lines(v));
                }
            }
        }
        proof {
            assert(v.skip(n as int) =~= Seq::<Seq<char>>::empty());
            assert(out@ =~= join_lines(v));
        }
        out
    }
}

} // verus!
