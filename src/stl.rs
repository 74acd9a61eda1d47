use vstd::prelude::*;

verus! {

/// The pieces of `t` between newline bytes: one more piece than there are newlines.
pub open spec fn pieces(t: Seq<u8>) -> Seq<Seq<u8>>
    decreases t.len(),
{
    if t.len() == 0 {
        seq![Seq::empty()]
    } else {
        let p = pieces(t.drop_last());
        if t.last() == 10 {
            p.push(Seq::empty())
        } else {
            p.update(p.len() - 1, p.last().push(t.last()))
        }
    }
}

/// A piece that was ended by a newline loses one trailing carriage return.
pub open spec fn strip_cr(piece: Seq<u8>, terminated: bool) -> Seq<u8> {
    if terminated && piece.len() > 0 && piece.last() == 13 {
        piece.drop_last()
    } else {
        piece
    }
}

/// The lines of `t`: split at each newline, a carriage return right before a newline
/// dropped, and no empty line after a final newline.
pub open spec fn text_lines(t: Seq<u8>) -> Seq<Seq<u8>> {
    let p = pieces(t);
    let n = if p.last().len() == 0 { p.len() - 1 } else { p.len() as int };
    Seq::new(n as nat, |i: int| strip_cr(p[i], i < p.len() - 1))
}

proof fn lemma_pieces_nonempty(t: Seq<u8>)
    ensures
        pieces(t).len() >= 1,
    decreases t.len(),
{
    if t.len() > 0 {
        lemma_pieces_nonempty(t.drop_last());
    }
}

/// The lines of `t` (see `text_lines`).
fn split_lines(t: &[u8]) -> (r: Vec<Vec<u8>>)
    ensures
        r@.len() == text_lines(t@).len(),
        forall|i: int| 0 <= i < r@.len() ==> (#[trigger] r@[i])@ == text_lines(t@)[i],
{
    let mut done: Vec<Vec<u8>> = Vec::new();
    let mut cur: Vec<u8> = Vec::new();
    let mut i: usize = 0;
    while i < t.len()
        invariant
            i <= t@.len(),
            done@.len() + 1 == pieces(t@.subrange(0, i as int)).len(),
            forall|k: int|
                0 <= k < done@.len() ==> (#[trigger] done@[k])@ == strip_cr(
                    pieces(t@.subrange(0, i as int))[k],
                    true,
                ),
            cur@ == pieces(t@.subrange(0, i as int)).last(),
        decreases t@.len() - i,
    {
        let ghost before = t@.subrange(0, i as int);
        proof {
            lemma_pieces_nonempty(before);
        }
        let b = t[i];
        i = i + 1;
        assert(t@.subrange(0, i as int).drop_last() =~= before);
        if b == 10 {
            let mut piece = cur;
            let len = piece.len();
            if len > 0 && piece[len - 1] == 13 {
                piece.pop();
            }
            done.push(piece);
            cur = Vec::new();
            assert(cur@ =~= Seq::<u8>::empty());
        } else {
            cur.push(b);
        }
    }
    assert(t@.subrange(0, i as int) =~= t@);
    if cur.len() > 0 {
        done.push(cur);
    }
    done
}

/// Whether `b` is an ASCII whitespace byte: space, tab, line feed, vertical tab, form
/// feed or carriage return.
pub open spec fn is_space(b: u8) -> bool {
    b == 32 || (9 <= b && b <= 13)
}

/// The maximal runs of non-whitespace bytes of `s`, in order.
pub open spec fn fields(s: Seq<u8>) -> Seq<Seq<u8>>
    decreases s.len(),
{
    if s.len() == 0 {
        Seq::empty()
    } else {
        let f = fields(s.drop_last());
        let b = s.last();
        if is_space(b) {
            f
        } else if s.len() >= 2 && !is_space(s[s.len() - 2]) {
            f.update(f.len() - 1, f.last().push(b))
        } else {
            f.push(seq![b])
        }
    }
}

proof fn lemma_fields_open(s: Seq<u8>)
    requires
        s.len() > 0,
        !is_space(s.last()),
    ensures
        fields(s).len() > 0,
    decreases s.len(),
{
    if s.len() >= 2 && !is_space(s[s.len() - 2]) {
        lemma_fields_open(s.drop_last());
    }
}

/// The whitespace-separated fields of `s` (see `fields`).
fn split_fields(s: &[u8]) -> (r: Vec<Vec<u8>>)
    ensures
        r@.len() == fields(s@).len(),
        forall|i: int| 0 <= i < r@.len() ==> (#[trigger] r@[i])@ == fields(s@)[i],
{
    let mut done: Vec<Vec<u8>> = Vec::new();
    let mut cur: Vec<u8> = Vec::new();
    let mut i: usize = 0;
    while i < s.len()
        invariant
            i <= s@.len(),
            (cur@.len() > 0) == (i > 0 && !is_space(s@[i - 1])),
            fields(s@.subrange(0, i as int)).len() == done@.len() + (if cur@.len() > 0 {
                1int
            } else {
                0
            }),
            forall|k: int|
                0 <= k < done@.len() ==> (#[trigger] done@[k])@ == fields(
                    s@.subrange(0, i as int),
                )[k],
            cur@.len() > 0 ==> cur@ == fields(s@.subrange(0, i as int)).last(),
        decreases s@.len() - i,
    {
        let ghost before = s@.subrange(0, i as int);
        let b = s[i];
        i = i + 1;
        assert(s@.subrange(0, i as int).drop_last() =~= before);
        if b == 32 || (9 <= b && b <= 13) {
            if cur.len() > 0 {
                let tok = cur;
                done.push(tok);
                cur = Vec::new();
            }
        } else {
            proof {
                if i >= 2 && !is_space(s@[i - 2]) {
                    lemma_fields_open(before);
                }
            }
            cur.push(b);
            assert(cur@.len() > 0 ==> cur@ == fields(s@.subrange(0, i as int)).last());
        }
    }
    assert(s@.subrange(0, i as int) =~= s@);
    if cur.len() > 0 {
        done.push(cur);
    }
    done
}

/// Whether `line` begins with the keyword `vertex`.
pub open spec fn starts_with_vertex(line: Seq<u8>) -> bool {
    line.len() >= 6 && line.subrange(0, 6) == seq![118u8, 101u8, 114u8, 116u8, 101u8, 120u8]
}

/// The vertex lines of an ASCII STL text: after the first line (`solid ...`), each
/// block of seven lines describes one facet (`facet normal`, `outer loop`, three
/// `vertex` lines, `endloop`, `endfacet`); its lines at offsets 2, 3 and 4 are taken.
/// Lines that do not fill a last block of seven are ignored.
pub open spec fn vertex_lines(t: Seq<u8>) -> Seq<Seq<u8>> {
    let l = text_lines(t);
    let blocks = if l.len() > 0 { (l.len() - 1) / 7 } else { 0 };
    Seq::new((3 * blocks) as nat, |i: int| l[1 + 7 * (i / 3) + 2 + i % 3])
}

/// Vertex line `i` is line `2 + i % 3` of block `i / 3`.
proof fn lemma_vertex_line(t: Seq<u8>, i: int)
    requires
        0 <= i < vertex_lines(t).len(),
    ensures
        vertex_lines(t)[i] == text_lines(t)[1 + 7 * (i / 3) + 2 + i % 3],
{
}

/// The vertex lines of the ASCII STL text `text`, three for each triangle, in order
/// (see `vertex_lines`).
pub fn get_triangles(text: &[u8]) -> (r: Vec<Vec<u8>>)
    ensures
        r@.len() == vertex_lines(text@).len(),
        forall|i: int| 0 <= i < r@.len() ==> (#[trigger] r@[i])@ == vertex_lines(text@)[i],
{
    let lines = split_lines(text);
    let ghost l = text_lines(text@);
    let n = lines.len();
    let blocks = if n > 0 { (n - 1) / 7 } else { 0 };
    let mut out: Vec<Vec<u8>> = Vec::new();
    let mut b: usize = 0;
    while b < blocks
        invariant
            l == text_lines(text@),
            lines@.len() == l.len(),
            forall|i: int| 0 <= i < lines@.len() ==> (#[trigger] lines@[i])@ == l[i],
            n == l.len(),
            blocks == (if n > 0 { (n - 1) / 7 } else { 0int }),
            vertex_lines(text@).len() == 3 * blocks,
            b <= blocks,
            out@.len() == 3 * b,
            forall|i: int| 0 <= i < out@.len() ==> (#[trigger] out@[i])@ == vertex_lines(text@)[i],
        decreases blocks - b,
    {
        let mut k: usize = 0;
        while k < 3
            invariant
                l == text_lines(text@),
                lines@.len() == l.len(),
                forall|i: int| 0 <= i < lines@.len() ==> (#[trigger] lines@[i])@ == l[i],
                n == l.len(),
                blocks == (if n > 0 { (n - 1) / 7 } else { 0int }),
                vertex_lines(text@).len() == 3 * blocks,
                b < blocks,
                k <= 3,
                out@.len() == 3 * b + k,
                forall|i: int|
                    0 <= i < out@.len() ==> (#[trigger] out@[i])@ == vertex_lines(text@)[i],
            decreases 3 - k,
        {
            let idx = 1 + 7 * b + 2 + k;
            let line = vstd::slice::slice_to_vec(lines[idx].as_slice());
            let ghost at = out@.len() as int;
            assert(at / 3 == b && at % 3 == k) by (nonlinear_arith)
                requires
                    at == 3 * b + k,
                    k < 3,
            ;
            assert(0 <= at < vertex_lines(text@).len());
            proof {
                lemma_vertex_line(text@, at);
            }
            out.push(line);
            k = k + 1;
        }
        b = b + 1;
    }
    out
}

/// The coordinate fields of an STL vertex line: `None` unless the line begins with
/// `vertex` (with no indentation before it); otherwise its whitespace-separated fields
/// after the first. The format is ASCII, and only ASCII whitespace separates fields.
pub fn to_vertex(line: &[u8]) -> (r: Option<Vec<Vec<u8>>>)
    ensures
        r is Some <==> starts_with_vertex(line@),
        r is Some ==> r->0@.len() == fields(line@).len() - 1,
        r is Some ==> forall|i: int|
            0 <= i < r->0@.len() ==> (#[trigger] r->0@[i])@ == fields(line@)[i + 1],
{
    if line.len() < 6 || line[0] != 118 || line[1] != 101 || line[2] != 114 || line[3] != 116
        || line[4] != 101 || line[5] != 120 {
        proof {
            if line@.len() >= 6 {
                assert(line@.subrange(0, 6)[0] == line@[0]);
                assert(line@.subrange(0, 6)[1] == line@[1]);
                assert(line@.subrange(0, 6)[2] == line@[2]);
                assert(line@.subrange(0, 6)[3] == line@[3]);
                assert(line@.subrange(0, 6)[4] == line@[4]);
                assert(line@.subrange(0, 6)[5] == line@[5]);
            }
        }
        return None;
    }
    assert(line@.subrange(0, 6) =~= seq![118u8, 101u8, 114u8, 116u8, 101u8, 120u8]);
    proof {
        lemma_fields_first(line@);
    }
    let mut f = split_fields(line);
    let ghost all = f@;
    f.remove(0);
    assert forall|i: int| 0 <= i < f@.len() implies (#[trigger] f@[i])@ == fields(line@)[i + 1] by {
        assert(f@[i] == all[i + 1]);
    }
    Some(f)
}

/// A text that begins with a non-whitespace byte has at least one field.
proof fn lemma_fields_first(s: Seq<u8>)
    requires
        s.len() > 0,
        !is_space(s[0]),
    ensures
        fields(s).len() > 0,
    decreases s.len(),
{
    if s.len() > 1 {
        lemma_fields_first(s.drop_last());
    }
}

} // verus!
