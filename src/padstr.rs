//! Reflow of free text into a bounded number of fixed-width, padded lines.

use std::collections::VecDeque;
use vstd::prelude::*;

verus! {

/// Where the padding of a line goes: `Left` pads on the left (the text is
/// right-aligned), `Right` on the right, `Center` on both sides.
#[derive(Clone, Copy, Debug, PartialEq, Eq, Structural)]
pub enum Pad {
    Left,
    Right,
    Center,
}

/// Unicode `White_Space` characters: the separators between words.
pub open spec fn is_space(c: char) -> bool {
    let u = c as u32;
    (0x09 <= u && u <= 0x0D) || u == 0x20 || u == 0x85 || u == 0xA0 || u == 0x1680
        || (0x2000 <= u && u <= 0x200A) || u == 0x2028 || u == 0x2029 || u == 0x202F
        || u == 0x205F || u == 0x3000
}

/// The separator of lines (`newline`) or of words (otherwise).
pub open spec fn is_sep(c: char, newline: bool) -> bool {
    if newline {
        c == '\n'
    } else {
        is_space(c)
    }
}

/// The pieces of `s` between separators, empty ones included: always one more
/// piece than there are separators.
pub open spec fn pieces(s: Seq<char>, newline: bool) -> Seq<Seq<char>>
    decreases s.len(),
{
    if s.len() == 0 {
        seq![Seq::empty()]
    } else {
        let p = pieces(s.drop_last(), newline);
        if is_sep(s.last(), newline) {
            p.push(Seq::empty())
        } else {
            p.update(p.len() - 1, p.last().push(s.last()))
        }
    }
}

/// A line with one trailing carriage return removed.
pub open spec fn strip_cr(l: Seq<char>) -> Seq<char> {
    if l.len() > 0 && l.last() == '\r' {
        l.drop_last()
    } else {
        l
    }
}

/// The lines of `s`: split at `\n` or `\r\n`, with no empty line after a final
/// line ending.
pub open spec fn text_lines(s: Seq<char>) -> Seq<Seq<char>> {
    let p = pieces(s, true);
    let body = Seq::new((p.len() - 1) as nat, |i: int| strip_cr(p[i]));
    if p.last().len() == 0 {
        body
    } else {
        body.push(p.last())
    }
}

/// The non-empty members of `ps`, in order.
pub open spec fn nonempty(ps: Seq<Seq<char>>) -> Seq<Seq<char>>
    decreases ps.len(),
{
    if ps.len() == 0 {
        seq![]
    } else {
        let r = nonempty(ps.drop_last());
        if ps.last().len() > 0 {
            r.push(ps.last())
        } else {
            r
        }
    }
}

/// The words of a line: its maximal runs of non-space characters.
pub open spec fn words(l: Seq<char>) -> Seq<Seq<char>> {
    nonempty(pieces(l, false))
}

/// The chunks of one line's words: each may be followed by more on its line,
/// but the last, which is terminal.
pub open spec fn line_chunks(ws: Seq<Seq<char>>) -> Seq<(Seq<char>, bool)> {
    Seq::new(ws.len(), |i: int| (ws[i], i == ws.len() - 1))
}

/// The chunks of wrap mode: the words of each line in turn.
pub open spec fn wrap_chunks(ls: Seq<Seq<char>>) -> Seq<(Seq<char>, bool)>
    decreases ls.len(),
{
    if ls.len() == 0 {
        seq![]
    } else {
        wrap_chunks(ls.drop_last()) + line_chunks(words(ls.last()))
    }
}

/// The chunks of truncate mode: each line whole, as a terminal chunk.
pub open spec fn truncate_chunks(ls: Seq<Seq<char>>) -> Seq<(Seq<char>, bool)> {
    Seq::new(ls.len(), |i: int| (ls[i], true))
}

/// `n` spaces.
pub open spec fn spaces(n: nat) -> Seq<char> {
    Seq::new(n, |i: int| ' ')
}

/// The first `w` characters of `s`, or all of it when it is shorter.
pub open spec fn clip(s: Seq<char>, w: nat) -> Seq<char> {
    if s.len() <= w {
        s
    } else {
        s.take(w as int)
    }
}

/// `s` clipped to `w` characters and padded with spaces to exactly `w`; in
/// the centre, an odd space goes to the right.
pub open spec fn pad_line(s: Seq<char>, w: nat, pad: Pad) -> Seq<char> {
    let c = clip(s, w);
    let free = (w - c.len()) as nat;
    match pad {
        Pad::Left => spaces(free) + c,
        Pad::Right => c + spaces(free),
        Pad::Center => spaces(free / 2) + c + spaces((free - free / 2) as nat),
    }
}

/// A chunk does not fit after the line built so far: only a line that
/// already holds something can overflow.
pub open spec fn would_wrap(agg: Seq<char>, c: Seq<char>, w: nat) -> bool {
    agg.len() > 0 && agg.len() + 1 + c.len() > w
}

/// `c` appended to the line `agg`, after one space unless the line is empty.
pub open spec fn join(agg: Seq<char>, c: Seq<char>) -> Seq<char> {
    if agg.len() == 0 {
        c
    } else {
        agg + seq![' '] + c
    }
}

/// Greedy packing of `chunks` from index `i` on, with the lines `bag` already
/// done and the line `agg` under way, into at most `v` lines of width `w`.
/// A chunk that does not fit starts a new line; a line is completed when it
/// is exactly full, at a terminal chunk, and at the last chunk; packing stops
/// once `v` lines are done.
pub open spec fn pack(
    chunks: Seq<(Seq<char>, bool)>,
    i: int,
    bag: Seq<Seq<char>>,
    agg: Seq<char>,
    w: nat,
    v: nat,
    pad: Pad,
) -> Seq<Seq<char>>
    decreases chunks.len() - i,
{
    if i < 0 || i >= chunks.len() {
        bag
    } else {
        let c = chunks[i];
        let wraps = would_wrap(agg, c.0, w);
        let bag1 = if wraps {
            bag.push(pad_line(agg, w, pad))
        } else {
            bag
        };
        let agg1 = if wraps {
            c.0
        } else {
            join(agg, c.0)
        };
        let flush = bag1.len() < v && (agg1.len() == w || i == chunks.len() - 1 || c.1);
        let bag2 = if flush {
            bag1.push(pad_line(agg1, w, pad))
        } else {
            bag1
        };
        let agg2 = if flush {
            Seq::empty()
        } else {
            agg1
        };
        if bag2.len() == v {
            bag2
        } else {
            pack(chunks, i + 1, bag2, agg2, w, v, pad)
        }
    }
}

/// The lines that `chunks` pack into, starting from nothing.
pub open spec fn packed(chunks: Seq<(Seq<char>, bool)>, w: nat, v: nat, pad: Pad) -> Seq<
    Seq<char>,
> {
    pack(chunks, 0, seq![], seq![], w, v, pad)
}

/// The character sequences of a sequence of strings.
pub open spec fn str_views(v: Seq<String>) -> Seq<Seq<char>> {
    Seq::new(v.len(), |i: int| v[i]@)
}

pub proof fn lemma_pieces_len(s: Seq<char>, newline: bool)
    ensures
        pieces(s, newline).len() >= 1,
    decreases s.len(),
{
    if s.len() > 0 {
        lemma_pieces_len(s.drop_last(), newline);
    }
}

proof fn lemma_pad_line_len(s: Seq<char>, w: nat, pad: Pad)
    ensures
        pad_line(s, w, pad).len() == w,
{
}

proof fn lemma_pack_shape(
    chunks: Seq<(Seq<char>, bool)>,
    i: int,
    bag: Seq<Seq<char>>,
    agg: Seq<char>,
    w: nat,
    v: nat,
    pad: Pad,
)
    requires
        bag.len() < v || (bag.len() == 0 && agg.len() == 0),
        forall|k: int| 0 <= k < bag.len() ==> (#[trigger] bag[k]).len() == w,
    ensures
        pack(chunks, i, bag, agg, w, v, pad).len() <= v,
        forall|k: int|
            0 <= k < pack(chunks, i, bag, agg, w, v, pad).len() ==> (#[trigger] pack(
                chunks,
                i,
                bag,
                agg,
                w,
                v,
                pad,
            )[k]).len() == w,
    decreases chunks.len() - i,
{
    if 0 <= i < chunks.len() {
        let c = chunks[i];
        lemma_pad_line_len(agg, w, pad);
        let wraps = would_wrap(agg, c.0, w);
        let agg1 = if wraps {
            c.0
        } else {
            join(agg, c.0)
        };
        lemma_pad_line_len(agg1, w, pad);
        let bag1 = if wraps {
            bag.push(pad_line(agg, w, pad))
        } else {
            bag
        };
        let flush = bag1.len() < v && (agg1.len() == w || i == chunks.len() - 1 || c.1);
        let bag2 = if flush {
            bag1.push(pad_line(agg1, w, pad))
        } else {
            bag1
        };
        let agg2 = if flush {
            Seq::empty()
        } else {
            agg1
        };
        assert(forall|k: int| 0 <= k < bag2.len() ==> (#[trigger] bag2[k]).len() == w);
        if bag2.len() != v {
            lemma_pack_shape(chunks, i + 1, bag2, agg2, w, v, pad);
        }
    }
}

/// Whatever the text and the mode, packing gives at most `m` lines, each
/// exactly `w` characters wide.
pub proof fn packed_lines_fit(text: Seq<char>, wrap: bool, w: nat, m: nat, pad: Pad)
    ensures
        ({
            let ls = text_lines(text);
            let r = packed(if wrap { wrap_chunks(ls) } else { truncate_chunks(ls) }, w, m, pad);
            &&& r.len() <= m
            &&& forall|k: int| 0 <= k < r.len() ==> (#[trigger] r[k]).len() == w
        }),
{
    let ls = text_lines(text);
    lemma_pack_shape(
        if wrap {
            wrap_chunks(ls)
        } else {
            truncate_chunks(ls)
        },
        0,
        seq![],
        seq![],
        w,
        m,
        pad,
    );
}

/// Centring: of the free space around the clipped content, the left side gets
/// half, rounded down, and the right side the rest.
pub proof fn center_padding_split(s: Seq<char>, w: nat)
    ensures
        ({
            let c = clip(s, w);
            let free = (w - c.len()) as nat;
            &&& c.len() <= w
            &&& pad_line(s, w, Pad::Center) == spaces(free / 2) + c + spaces(
                (free - free / 2) as nat,
            )
            &&& (free / 2) + (free - free / 2) == free
        }),
{
}

proof fn lemma_pack_truncated(ls: Seq<Seq<char>>, i: int, w: nat, m: nat, pad: Pad)
    requires
        0 <= i <= ls.len(),
        i < m || i == 0,
    ensures
        pack(
            truncate_chunks(ls),
            i,
            Seq::new(i as nat, |k: int| pad_line(ls[k], w, pad)),
            seq![],
            w,
            m,
            pad,
        ) == Seq::new(
            if m < ls.len() {
                m
            } else {
                ls.len()
            },
            |k: int| pad_line(ls[k], w, pad),
        ),
    decreases ls.len() - i,
{
    let bag = Seq::new(i as nat, |k: int| pad_line(ls[k], w, pad));
    let n: nat = if m < ls.len() {
        m
    } else {
        ls.len()
    };
    if i == ls.len() {
        assert(bag =~= Seq::new(n, |k: int| pad_line(ls[k], w, pad)));
    } else {
        let ch = truncate_chunks(ls);
        assert(join(seq![], ls[i]) == ls[i]);
        if m == 0 {
            assert(bag =~= Seq::new(n, |k: int| pad_line(ls[k], w, pad)));
        } else {
            let next = Seq::new((i + 1) as nat, |k: int| pad_line(ls[k], w, pad));
            assert(bag.push(pad_line(ls[i], w, pad)) =~= next);
            if i + 1 == m {
                assert(next =~= Seq::new(n, |k: int| pad_line(ls[k], w, pad)));
            } else {
                lemma_pack_truncated(ls, i + 1, w, m, pad);
            }
        }
    }
}

/// Truncate mode never wraps: the k-th line out is the k-th line in, clipped
/// and padded, for as many lines as `m` allows; a line of `w` characters or
/// more comes out as exactly its first `w`.
pub proof fn truncated_lines(s: Seq<char>, w: nat, m: nat, pad: Pad)
    ensures
        ({
            let ls = text_lines(s);
            let r = packed(truncate_chunks(ls), w, m, pad);
            &&& r.len() == if m < ls.len() {
                m
            } else {
                ls.len()
            }
            &&& forall|k: int| 0 <= k < r.len() ==> r[k] == pad_line(ls[k], w, pad)
            &&& forall|k: int|
                0 <= k < r.len() && ls[k].len() >= w ==> r[k] == ls[k].take(w as int)
        }),
{
    let ls = text_lines(s);
    assert(Seq::new(0, |k: int| pad_line(ls[k], w, pad)) =~= seq![]);
    lemma_pack_truncated(ls, 0, w, m, pad);
    let r = packed(truncate_chunks(ls), w, m, pad);
    assert forall|k: int| 0 <= k < r.len() && ls[k].len() >= w implies r[k] == ls[k].take(
        w as int,
    ) by {
        assert(pad_line(ls[k], w, pad) =~= ls[k].take(w as int));
    }
}

fn is_sep_exec(c: char, newline: bool) -> (r: bool)
    ensures
        r == is_sep(c, newline),
{
    if newline {
        c == '\n'
    } else {
        let u = c as u32;
        (0x09 <= u && u <= 0x0D) || u == 0x20 || u == 0x85 || u == 0xA0 || u == 0x1680
            || (0x2000 <= u && u <= 0x200A) || u == 0x2028 || u == 0x2029 || u == 0x202F
            || u == 0x205F || u == 0x3000
    }
}

fn split_pieces(s: &str, newline: bool) -> (r: Vec<String>)
    ensures
        str_views(r@) == pieces(s@, newline),
{
    let n = s.unicode_len();
    let mut out: Vec<String> = Vec::new();
    let mut start: usize = 0;
    let mut i: usize = 0;
    assert(s@.subrange(0, 0) =~= Seq::<char>::empty());
    assert(str_views(out@).push(s@.subrange(0, 0)) =~= pieces(s@.subrange(0, 0), newline));
    while i < n
        invariant
            n == s@.len(),
            start <= i <= n,
            str_views(out@).push(s@.subrange(start as int, i as int)) == pieces(
                s@.subrange(0, i as int),
                newline,
            ),
        decreases n - i,
    {
        let c = s.get_char(i);
        let ghost prev = s@.subrange(0, i as int);
        let ghost next = s@.subrange(0, i + 1);
        assert(next.drop_last() =~= prev);
        assert(next.last() == c);
        let ghost old_views = str_views(out@);
        if is_sep_exec(c, newline) {
            let piece = s.substring_char(start, i);
            out.push(String::from_str(piece));
            assert(str_views(out@) =~= old_views.push(s@.subrange(start as int, i as int)));
            start = i + 1;
            assert(s@.subrange(start as int, (i + 1) as int) =~= Seq::<char>::empty());
            assert(str_views(out@).push(s@.subrange(start as int, (i + 1) as int)) =~= pieces(
                next,
                newline,
            ));
        } else {
            assert(s@.subrange(start as int, i as int).push(c) =~= s@.subrange(
                start as int,
                (i + 1) as int,
            ));
            assert(str_views(out@).push(s@.subrange(start as int, (i + 1) as int)) =~= pieces(
                next,
                newline,
            ));
        }
        i = i + 1;
    }
    let piece = s.substring_char(start, n);
    let ghost old_views = str_views(out@);
    out.push(String::from_str(piece));
    assert(str_views(out@) =~= old_views.push(s@.subrange(start as int, n as int)));
    assert(s@.subrange(0, n as int) =~= s@);
    assert(str_views(out@) =~= pieces(s@, newline));
    out
}

pub(crate) fn blank(n: usize) -> (r: String)
    ensures
        r@ == spaces(n as nat),
{
    let mut r = String::new();
    let mut i: usize = 0;
    while i < n
        invariant
            i <= n,
            r@ == spaces(i as nat),
        decreases n - i,
    {
        r.append(" ");
        proof {
            reveal_strlit(" ");
        }
        assert(r@ =~= spaces((i + 1) as nat));
        i = i + 1;
    }
    r
}

fn should_wrap(agg: &str, s: &Chunk, hspace: usize) -> (r: bool)
    ensures
        r == would_wrap(agg@, s.view().0, hspace as nat),
{
    let line_start = agg.unicode_len() == 0;
    let len = s.inner().unicode_len();
    !line_start && (len >= hspace || agg.unicode_len() >= hspace - len)
}

fn center_string(s: &str, width: usize) -> (r: String)
    requires
        s@.len() <= width,
    ensures
        r@ == spaces(((width - s@.len()) / 2) as nat) + s@ + spaces(
            ((width - s@.len()) - (width - s@.len()) / 2) as nat,
        ),
{
    let padding = width - s.unicode_len();
    let left_padding = padding / 2;
    let right_padding = padding - left_padding;
    let mut r = blank(left_padding);
    r.append(s);
    r.append(blank(right_padding).as_str());
    r
}

fn rightpad_string(s: &str, width: usize) -> (r: String)
    requires
        s@.len() <= width,
    ensures
        r@ == s@ + spaces((width - s@.len()) as nat),
{
    let mut r = String::from_str(s);
    r.append(blank(width - s.unicode_len()).as_str());
    r
}

fn leftpad_string(s: &str, width: usize) -> (r: String)
    requires
        s@.len() <= width,
    ensures
        r@ == spaces((width - s@.len()) as nat) + s@,
{
    let mut r = blank(width - s.unicode_len());
    r.append(s);
    r
}

enum Chunk {
    Word(String),
    Term(String),
}

impl Chunk {
    spec fn view(&self) -> (Seq<char>, bool) {
        match self {
            Chunk::Word(s) => (s@, false),
            Chunk::Term(s) => (s@, true),
        }
    }

    fn inner(&self) -> (r: &str)
        ensures
            r@ == self.view().0,
    {
        match self {
            Chunk::Word(s) => s.as_str(),
            Chunk::Term(s) => s.as_str(),
        }
    }
}

/// Text split into chunks, ready to be packed into lines.
pub struct PadStr {
    inner: Vec<Chunk>,
}

fn split_lines(s: &str) -> (r: Vec<String>)
    ensures
        str_views(r@) == text_lines(s@),
{
    let p = split_pieces(s, true);
    proof {
        lemma_pieces_len(s@, true);
    }
    let ghost ps = pieces(s@, true);
    let k = p.len() - 1;
    let mut out: Vec<String> = Vec::new();
    let mut i: usize = 0;
    while i < k
        invariant
            k == p@.len() - 1,
            ps == str_views(p@),
            i <= k,
            str_views(out@) =~= Seq::new(i as nat, |j: int| strip_cr(ps[j])),
        decreases k - i,
    {
        let l = p[i].as_str();
        let n = l.unicode_len();
        let ghost old_views = str_views(out@);
        if n > 0 && l.get_char(n - 1) == '\r' {
            out.push(String::from_str(l.substring_char(0, n - 1)));
            assert(l@.subrange(0, n - 1) =~= l@.drop_last());
        } else {
            out.push(String::from_str(l));
        }
        assert(str_views(out@) =~= old_views.push(strip_cr(ps[i as int])));
        i = i + 1;
    }
    let last = p[k].as_str();
    if last.unicode_len() > 0 {
        let ghost old_views = str_views(out@);
        out.push(String::from_str(last));
        assert(str_views(out@) =~= old_views.push(ps.last()));
    }
    out
}

fn split_words(l: &str) -> (r: Vec<String>)
    ensures
        str_views(r@) == words(l@),
{
    let p = split_pieces(l, false);
    let ghost ps = pieces(l@, false);
    let mut out: Vec<String> = Vec::new();
    let mut i: usize = 0;
    assert(ps.subrange(0, 0) =~= Seq::<Seq<char>>::empty());
    while i < p.len()
        invariant
            ps == str_views(p@),
            i <= p@.len(),
            str_views(out@) == nonempty(ps.subrange(0, i as int)),
        decreases p@.len() - i,
    {
        let w = p[i].as_str();
        let ghost old_views = str_views(out@);
        assert(ps.subrange(0, i + 1).drop_last() =~= ps.subrange(0, i as int));
        if w.unicode_len() > 0 {
            out.push(String::from_str(w));
            assert(str_views(out@) =~= old_views.push(ps[i as int]));
        } else {
            assert(str_views(out@) =~= old_views);
        }
        i = i + 1;
    }
    assert(ps.subrange(0, p@.len() as int) =~= ps);
    out
}

impl PadStr {
    /// The chunks of the text, each with whether it ends its line.
    pub closed spec fn chunks(&self) -> Seq<(Seq<char>, bool)> {
        Seq::new(self.inner@.len(), |i: int| self.inner@[i].view())
    }

    /// Truncate mode: each line of `s` is one chunk, clipped later if too long.
    pub fn truncating(s: &str) -> (r: Self)
        ensures
            r.chunks() == truncate_chunks(text_lines(s@)),
    {
        let ls = split_lines(s);
        let ghost lv = str_views(ls@);
        let mut inner: Vec<Chunk> = Vec::new();
        let mut i: usize = 0;
        while i < ls.len()
            invariant
                lv == str_views(ls@),
                lv == text_lines(s@),
                i <= ls@.len(),
                inner@.len() == i,
                Seq::new(inner@.len(), |j: int| inner@[j].view()) =~= truncate_chunks(
                    lv.subrange(0, i as int),
                ),
            decreases ls@.len() - i,
        {
            let ghost old_inner = inner@;
            inner.push(Chunk::Term(String::from_str(ls[i].as_str())));
            assert(inner@[i as int].view() == (lv[i as int], true));
            assert(inner@.subrange(0, i as int) =~= old_inner);
            assert forall|j: int| 0 <= j <= i implies inner@[j].view() == (lv[j], true) by {
                if j < i {
                    assert(inner@[j] == old_inner[j]);
                    assert(truncate_chunks(lv.subrange(0, i as int))[j] == (lv[j], true));
                }
            }
            i = i + 1;
        }
        assert(lv.subrange(0, ls@.len() as int) =~= lv);
        PadStr { inner }
    }

    /// Wrap mode: each word of each line is a chunk; the last word of a line is
    /// terminal.
    pub fn wrapping(s: &str) -> (r: Self)
        ensures
            r.chunks() == wrap_chunks(text_lines(s@)),
    {
        let ls = split_lines(s);
        let ghost lv = str_views(ls@);
        let mut inner: Vec<Chunk> = Vec::new();
        let mut i: usize = 0;
        assert(lv.subrange(0, 0) =~= Seq::<Seq<char>>::empty());
        while i < ls.len()
            invariant
                lv == str_views(ls@),
                lv == text_lines(s@),
                i <= ls@.len(),
                Seq::new(inner@.len(), |j: int| inner@[j].view()) == wrap_chunks(
                    lv.subrange(0, i as int),
                ),
            decreases ls@.len() - i,
        {
            let ws = split_words(ls[i].as_str());
            let ghost wv = str_views(ws@);
            let ghost before = Seq::new(inner@.len(), |j: int| inner@[j].view());
            let count = ws.len();
            let mut k: usize = 0;
            while k < count
                invariant
                    count == ws@.len(),
                    wv == str_views(ws@),
                    k <= count,
                    Seq::new(inner@.len(), |j: int| inner@[j].view()) =~= before
                        + line_chunks(wv).subrange(0, k as int),
                decreases count - k,
            {
                let w = String::from_str(ws[k].as_str());
                let ghost old_inner = inner@;
                if k == count - 1 {
                    inner.push(Chunk::Term(w));
                } else {
                    inner.push(Chunk::Word(w));
                }
                assert(inner@.last().view() == line_chunks(wv)[k as int]);
                assert(inner@.drop_last() =~= old_inner);
                assert(Seq::new(inner@.len(), |j: int| inner@[j].view()) =~= Seq::new(
                    old_inner.len(),
                    |j: int| old_inner[j].view(),
                ).push(line_chunks(wv)[k as int]));
                assert(line_chunks(wv).subrange(0, k + 1) =~= line_chunks(wv).subrange(
                    0,
                    k as int,
                ).push(line_chunks(wv)[k as int]));
                k = k + 1;
            }
            assert(line_chunks(wv).subrange(0, count as int) =~= line_chunks(wv));
            assert(lv.subrange(0, i + 1).drop_last() =~= lv.subrange(0, i as int));
            i = i + 1;
        }
        assert(lv.subrange(0, ls@.len() as int) =~= lv);
        PadStr { inner }
    }

    /// Packs the chunks into at most `vspace` lines, each exactly `hspace`
    /// characters wide.
    pub fn paddify(&self, hspace: usize, vspace: usize, pad: Pad) -> (r: VecDeque<String>)
        ensures
            str_views(r@) == packed(self.chunks(), hspace as nat, vspace as nat, pad),
            r@.len() <= vspace,
            forall|k: int| 0 <= k < r@.len() ==> (#[trigger] r@[k])@.len() == hspace,
    {
        let ghost chunks = self.chunks();
        let ghost w = hspace as nat;
        let ghost v = vspace as nat;
        let mut bag: VecDeque<String> = VecDeque::new();
        let mut agg = String::new();
        let n = self.inner.len();
        let mut i: usize = 0;
        assert(str_views(bag@) =~= Seq::<Seq<char>>::empty());
        assert(agg@ =~= Seq::<char>::empty());
        while i < n
            invariant
                n == self.inner@.len(),
                chunks == self.chunks(),
                w == hspace,
                v == vspace,
                i <= n,
                packed(chunks, w, v, pad) == pack(chunks, i as int, str_views(bag@), agg@, w, v, pad),
                bag@.len() < vspace || (bag@.len() == 0 && agg@.len() == 0),
                forall|k: int| 0 <= k < bag@.len() ==> (#[trigger] bag@[k])@.len() == hspace,
            decreases n - i,
        {
            let s = &self.inner[i];
            assert(chunks[i as int] == s.view());
            let last_str = i == n - 1;
            let term_str = match s {
                Chunk::Term(_) => true,
                Chunk::Word(_) => false,
            };
            let ghost old_bag = str_views(bag@);
            let ghost old_agg = agg@;
            if !should_wrap(agg.as_str(), s, hspace) {
                if agg.unicode_len() > 0 {
                    agg.append(" ");
                    proof {
                        reveal_strlit(" ");
                    }
                }
                agg.append(s.inner());
                assert(agg@ =~= join(old_agg, s.view().0));
            } else {
                let line = self.pad_str(agg.as_str(), hspace, &pad);
                bag.push_back(line);
                assert(str_views(bag@) =~= old_bag.push(pad_line(old_agg, w, pad)));
                agg = String::from_str(s.inner());
            }
            let ghost mid_bag = str_views(bag@);
            let ghost mid_agg = agg@;
            if bag.len() < vspace && (agg.unicode_len() == hspace || last_str || term_str) {
                let line = self.pad_str(agg.as_str(), hspace, &pad);
                bag.push_back(line);
                assert(str_views(bag@) =~= mid_bag.push(pad_line(mid_agg, w, pad)));
                agg = String::new();
            }
            if bag.len() == vspace {
                return bag;
            }
            i = i + 1;
        }
        bag
    }

    fn pad_str(&self, s: &str, hspace: usize, just: &Pad) -> (r: String)
        ensures
            r@ == pad_line(s@, hspace as nat, *just),
            r@.len() == hspace,
    {
        let len = s.unicode_len();
        let subs = if len <= hspace {
            s
        } else {
            s.substring_char(0, hspace)
        };
        assert(subs@ =~= clip(s@, hspace as nat));
        match just {
            Pad::Left => leftpad_string(subs, hspace),
            Pad::Right => rightpad_string(subs, hspace),
            Pad::Center => center_string(subs, hspace),
        }
    }
}

} // verus!
