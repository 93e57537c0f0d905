//! Triangle meshes in the Wavefront OBJ text format: the grammar of a line,
//! and the check that every face refers to vertices and normals that exist.
//!
//! Coordinates are handed out as the places of their text in the line, for
//! the caller to read as numbers.

use crate::search::first_index;
use crate::search::lemma_first_index;
use vstd::prelude::*;
use vstd::slice::slice_subrange;

verus! {

/// Why a mesh is refused.
#[derive(Clone, Copy, Debug, PartialEq, Eq, Structural)]
pub enum MeshError {
    /// A `v` or `vn` line with fewer than three coordinates.
    MissingCoordinate,
    /// An `f` line with fewer than nine indices, or with an index that is no
    /// positive decimal number that fits the machine.
    MalformedFace,
    /// The face at this place among the faces refers to a vertex or a normal
    /// that the mesh does not have.
    MalformedMeshReference { face: usize },
}

/// The bytes of a line from `start` up to, not including, `end`.
#[derive(Clone, Copy, Debug, PartialEq, Eq, Structural)]
pub struct Span {
    pub start: usize,
    pub end: usize,
}

/// A triangle by the places of its corners among the vertices and of their
/// normals among the vertex normals, both counted from 0.
#[derive(Clone, Copy, Debug, PartialEq, Eq)]
pub struct Face {
    pub verts: [usize; 3],
    pub normals: [usize; 3],
}

/// What a line of the text says.
#[derive(Clone, Copy, Debug, PartialEq, Eq)]
pub enum Line {
    /// `v x y z`: a vertex, with the places of its three coordinates.
    Vertex(Span, Span, Span),
    /// `vn x y z`: a vertex normal, with the places of its three coordinates.
    Normal(Span, Span, Span),
    /// `f v/t/n v/t/n v/t/n`: a triangle.
    Face(Face),
    /// Anything else, which a mesh ignores.
    Other,
}

/// The places of the three coordinates of a vertex or a normal in the text.
#[derive(Clone, Copy, Debug, PartialEq, Eq, Structural)]
pub struct Coordinates {
    pub x: Span,
    pub y: Span,
    pub z: Span,
}

/// Whether the triangles of a mesh are flat or carry a normal at each corner.
#[derive(Clone, Copy, Debug, PartialEq, Eq, Structural)]
pub enum MeshKind {
    Flat,
    Smooth,
}

/// A mesh whose faces all refer to what exists.
#[derive(Debug)]
pub struct Mesh {
    pub kind: MeshKind,
    pub faces: Vec<Face>,
}

/// A mesh as its text gives it: where the coordinates of its vertices and
/// vertex normals stand, and its faces, which refer to them.
#[derive(Debug)]
pub struct ObjText {
    pub vertices: Vec<Coordinates>,
    pub normals: Vec<Coordinates>,
    pub mesh: Mesh,
}

/// Space, tab, line feed, vertical tab, form feed and carriage return.
pub open spec fn is_space(b: u8) -> bool {
    b == 32 || (9 <= b <= 13)
}

/// Where the run of bytes that starts at `from` ends: a run of white space
/// if `spaces`, else a run of other bytes.
pub open spec fn run_end(s: Seq<u8>, from: int, spaces: bool) -> int
    decreases s.len() - from,
{
    if 0 <= from < s.len() && is_space(s[from]) == spaces {
        run_end(s, from + 1, spaces)
    } else {
        from
    }
}

/// The words of `s` from `from` on: the longest runs of bytes that are no
/// white space, in their order.
pub open spec fn tokens_from(s: Seq<u8>, from: int) -> Seq<Span>
    decreases s.len() - from,
{
    let start = run_end(s, from, true);
    let end = run_end(s, start, false);
    if 0 <= from <= start < end <= s.len() {
        seq![Span { start: start as usize, end: end as usize }] + tokens_from(s, end)
    } else {
        Seq::empty()
    }
}

/// The words of a line.
pub open spec fn tokens(s: Seq<u8>) -> Seq<Span> {
    tokens_from(s, 0)
}

/// The place of the first `/` in `s` from `from` on and before `end`, or
/// `end` if there is none.
pub open spec fn slash_or_end(s: Seq<u8>, from: int, end: int) -> int
    decreases end - from,
{
    if 0 <= from < end <= s.len() && s[from] != 47 {
        slash_or_end(s, from + 1, end)
    } else {
        from
    }
}

/// The fields of the word of `s` between `from` and `end`: what stands
/// between its slashes, empty fields too.
pub open spec fn fields_of(s: Seq<u8>, from: int, end: int) -> Seq<Span>
    decreases end - from,
{
    let stop = slash_or_end(s, from, end);
    if 0 <= from <= stop < end <= s.len() {
        seq![Span { start: from as usize, end: stop as usize }] + fields_of(s, stop + 1, end)
    } else {
        seq![Span { start: from as usize, end: end as usize }]
    }
}

/// The fields of all of `words`, one word after the other.
pub open spec fn fields_of_all(s: Seq<u8>, words: Seq<Span>) -> Seq<Span>
    decreases words.len(),
{
    if words.len() == 0 {
        Seq::empty()
    } else {
        fields_of_all(s, words.drop_last()) + fields_of(
            s,
            words.last().start as int,
            words.last().end as int,
        )
    }
}

/// Whether `b` is a decimal digit.
pub open spec fn is_digit(b: u8) -> bool {
    48 <= b <= 57
}

/// Whether `s` holds decimal digits only.
pub open spec fn all_digits(s: Seq<u8>) -> bool {
    forall|i: int| 0 <= i < s.len() ==> is_digit(#[trigger] s[i])
}

/// The number that the decimal digits `s` write.
pub open spec fn digits_value(s: Seq<u8>) -> int
    decreases s.len(),
{
    if s.len() == 0 {
        0
    } else {
        digits_value(s.drop_last()) * 10 + (s.last() - 48)
    }
}

/// The number that `s` writes: decimal digits, at least one, after at most
/// one plus sign.
pub open spec fn numeral(s: Seq<u8>) -> Option<int> {
    let digits = if s.len() > 0 && s[0] == 43 {
        s.drop_first()
    } else {
        s
    };
    if digits.len() > 0 && all_digits(digits) {
        Some(digits_value(digits))
    } else {
        None
    }
}

/// The place that the field `span` of `s` names, counted from 0: the field
/// writes a number from 1 up that fits the machine, and the place is one less.
pub open spec fn index_at(s: Seq<u8>, span: Span) -> Option<usize> {
    if 0 <= span.start <= span.end <= s.len() {
        match numeral(s.subrange(span.start as int, span.end as int)) {
            Some(n) => if 1 <= n <= usize::MAX {
                Some((n - 1) as usize)
            } else {
                None
            },
            None => None,
        }
    } else {
        None
    }
}

/// Whether `word` of `s` is exactly the bytes `text`.
pub open spec fn word_is(s: Seq<u8>, word: Span, text: Seq<u8>) -> bool {
    0 <= word.start <= word.end <= s.len() && s.subrange(word.start as int, word.end as int)
        == text
}

/// The places that the fields of an `f` line name, where the line has at
/// least nine fields after its first word and every field names a place.
pub open spec fn face_indices(s: Seq<u8>, words: Seq<Span>) -> Option<Seq<usize>> {
    let fields = fields_of_all(s, words.subrange(1, words.len() as int));
    if words.len() >= 1 && fields.len() >= 9 && (forall|i: int|
        0 <= i < fields.len() ==> index_at(s, #[trigger] fields[i]) is Some) {
        Some(Seq::new(fields.len(), |i: int| index_at(s, fields[i]).unwrap()))
    } else {
        None
    }
}

/// The triangle written by fields that name the places `indices`: each
/// corner is a vertex, a texture place that is passed over, and a normal.
pub open spec fn face_from(indices: Seq<usize>) -> Face {
    Face {
        verts: [indices[0], indices[3], indices[6]],
        normals: [indices[2], indices[5], indices[8]],
    }
}

/// The triangle that an `f` line with the words `words` writes.
pub open spec fn face_of(s: Seq<u8>, words: Seq<Span>) -> Result<Face, MeshError> {
    match face_indices(s, words) {
        Some(indices) => Ok(face_from(indices)),
        None => Err(MeshError::MalformedFace),
    }
}

/// What the line `s` says.
pub open spec fn line_of(s: Seq<u8>) -> Result<Line, MeshError> {
    let words = tokens(s);
    if words.len() == 0 {
        Ok(Line::Other)
    } else if word_is(s, words[0], seq![118u8]) {
        if words.len() >= 4 {
            Ok(Line::Vertex(words[1], words[2], words[3]))
        } else {
            Err(MeshError::MissingCoordinate)
        }
    } else if word_is(s, words[0], seq![118u8, 110u8]) {
        if words.len() >= 4 {
            Ok(Line::Normal(words[1], words[2], words[3]))
        } else {
            Err(MeshError::MissingCoordinate)
        }
    } else if word_is(s, words[0], seq![102u8]) {
        match face_of(s, words) {
            Ok(face) => Ok(Line::Face(face)),
            Err(e) => Err(e),
        }
    } else {
        Ok(Line::Other)
    }
}

/// Whether every corner of `face` is among `n_verts` vertices and, in a mesh
/// with vertex normals, every normal of it among the `n_normals` normals.
pub open spec fn face_in_range(face: Face, n_verts: usize, n_normals: usize) -> bool {
    &&& forall|k: int| 0 <= k < 3 ==> (#[trigger] face.verts@[k]) < n_verts
    &&& n_normals > 0 ==> forall|k: int| 0 <= k < 3 ==> (#[trigger] face.normals@[k]) < n_normals
}

/// The digits written so far never stand for more than all of them do.
pub proof fn lemma_digits_value_prefix(s: Seq<u8>, k: int)
    requires
        all_digits(s),
        0 <= k <= s.len(),
    ensures
        0 <= digits_value(s.take(k)) <= digits_value(s),
    decreases s.len(),
{
    if s.len() == 0 {
        assert(s.take(k) =~= s);
    } else if k == s.len() {
        assert(s.take(k) =~= s);
        lemma_digits_value_prefix(s.drop_last(), k - 1);
        assert(is_digit(s[s.len() - 1]));
    } else {
        let rest = s.drop_last();
        assert forall|i: int| 0 <= i < rest.len() implies is_digit(#[trigger] rest[i]) by {
            assert(rest[i] == s[i]);
        }
        lemma_digits_value_prefix(rest, k);
        assert(rest.take(k) =~= s.take(k));
        assert(is_digit(s[s.len() - 1]));
    }
}

pub fn is_space_byte(b: u8) -> (space: bool)
    ensures
        space == is_space(b),
{
    b == 32 || (9 <= b && b <= 13)
}

/// Splits a line into its words.
pub fn tokenize(line: &[u8]) -> (words: Vec<Span>)
    ensures
        words@ == tokens(line@),
        forall|i: int|
            0 <= i < words@.len() ==> (#[trigger] words@[i]).start < words@[i].end <= line@.len(),
{
    let n: usize = line.len();
    let mut words: Vec<Span> = Vec::new();
    let mut pos: usize = 0;
    let mut done: bool = false;
    while !done
        invariant
            n == line@.len(),
            pos <= n,
            tokens(line@) == words@ + tokens_from(line@, pos as int),
            done ==> tokens_from(line@, pos as int) == Seq::<Span>::empty(),
            forall|i: int|
                0 <= i < words@.len() ==> (#[trigger] words@[i]).start < words@[i].end <= n,
        decreases n - pos + (if done { 0int } else { 1int }),
    {
        let mut start: usize = pos;
        while start < n && is_space_byte(line[start])
            invariant
                n == line@.len(),
                pos <= start <= n,
                run_end(line@, pos as int, true) == run_end(line@, start as int, true),
            decreases n - start,
        {
            start += 1;
        }
        let mut end: usize = start;
        while end < n && !is_space_byte(line[end])
            invariant
                n == line@.len(),
                start <= end <= n,
                run_end(line@, start as int, false) == run_end(line@, end as int, false),
            decreases n - end,
        {
            end += 1;
        }
        assert(run_end(line@, pos as int, true) == start);
        assert(run_end(line@, start as int, false) == end);
        if start < end {
            let ghost before = words@;
            let word = Span { start, end };
            words.push(word);
            proof {
                assert(tokens_from(line@, pos as int) == seq![word] + tokens_from(
                    line@,
                    end as int,
                ));
                assert(words@ + tokens_from(line@, end as int) =~= before + (seq![word]
                    + tokens_from(line@, end as int)));
            }
            pos = end;
        } else {
            done = true;
        }
    }
    proof {
        assert(words@ + Seq::<Span>::empty() =~= words@);
    }
    words
}

/// Appends the fields of `word` to `fields`.
pub fn split_fields(line: &[u8], word: Span, fields: &mut Vec<Span>)
    requires
        word.start <= word.end <= line@.len(),
    ensures
        final(fields)@ == old(fields)@ + fields_of(line@, word.start as int, word.end as int),
{
    let ghost before = fields@;
    let mut from: usize = word.start;
    let mut done: bool = false;
    while !done
        invariant
            word.start <= from <= word.end <= line@.len(),
            !done ==> before + fields_of(line@, word.start as int, word.end as int) == fields@
                + fields_of(line@, from as int, word.end as int),
            done ==> before + fields_of(line@, word.start as int, word.end as int) == fields@,
        decreases word.end - from + (if done { 0int } else { 1int }),
    {
        let mut stop: usize = from;
        while stop < word.end && line[stop] != 47
            invariant
                from <= stop <= word.end <= line@.len(),
                slash_or_end(line@, from as int, word.end as int) == slash_or_end(
                    line@,
                    stop as int,
                    word.end as int,
                ),
            decreases word.end - stop,
        {
            stop += 1;
        }
        assert(slash_or_end(line@, from as int, word.end as int) == stop);
        let ghost so_far = fields@;
        if stop < word.end {
            let field = Span { start: from, end: stop };
            fields.push(field);
            proof {
                assert(fields_of(line@, from as int, word.end as int) == seq![field] + fields_of(
                    line@,
                    stop + 1,
                    word.end as int,
                ));
                assert(fields@ + fields_of(line@, stop + 1, word.end as int) =~= so_far + (
                seq![field] + fields_of(line@, stop + 1, word.end as int)));
            }
            from = stop + 1;
        } else {
            let field = Span { start: from, end: word.end };
            fields.push(field);
            proof {
                assert(fields_of(line@, from as int, word.end as int) == seq![field]);
                assert(fields@ =~= so_far + seq![field]);
            }
            done = true;
        }
    }
}

/// Reads the field `span` of `line` as a place counted from 1 and gives it
/// counted from 0.
pub fn parse_index(line: &[u8], span: Span) -> (index: Option<usize>)
    ensures
        index == index_at(line@, span),
{
    if span.start > span.end || span.end > line.len() {
        return None;
    }
    let ghost text = line@.subrange(span.start as int, span.end as int);
    let mut i: usize = span.start;
    if i < span.end && line[i] == 43 {
        i += 1;
    }
    let first: usize = i;
    let ghost digits = line@.subrange(first as int, span.end as int);
    proof {
        if first > span.start {
            assert(text[0] == 43);
            assert(text.drop_first() =~= digits);
        } else {
            assert(text =~= digits);
            if text.len() > 0 {
                assert(text[0] == line@[span.start as int]);
            }
        }
    }
    if first == span.end {
        return None;
    }
    assert(digits.len() > 0);
    let mut acc: usize = 0;
    while i < span.end
        invariant
            span.start <= first <= i <= span.end <= line@.len(),
            first < span.end,
            digits == line@.subrange(first as int, span.end as int),
            numeral(line@.subrange(span.start as int, span.end as int)) == (if all_digits(digits) {
                Some(digits_value(digits))
            } else {
                None
            }),
            all_digits(digits.take(i - first)),
            acc == digits_value(digits.take(i - first)),
        decreases span.end - i,
    {
        let b: u8 = line[i];
        if b < 48 || b > 57 {
            proof {
                assert(digits[i - first] == b);
            }
            return None;
        }
        let d: usize = (b - 48) as usize;
        let ghost next = digits.take(i - first + 1);
        proof {
            assert(next.drop_last() =~= digits.take(i - first));
            assert(next.last() == b);
            assert forall|j: int| 0 <= j < next.len() implies is_digit(#[trigger] next[j]) by {
                if j < i - first {
                    assert(next[j] == digits.take(i - first)[j]);
                }
            }
        }
        if acc > (usize::MAX - d) / 10 {
            proof {
                if all_digits(digits) {
                    lemma_digits_value_prefix(digits, i - first + 1);
                }
            }
            return None;
        }
        acc = acc * 10 + d;
        i += 1;
    }
    proof {
        assert(digits.take(i - first) =~= digits);
    }
    if acc == 0 {
        None
    } else {
        Some(acc - 1)
    }
}

/// Reads the triangle of an `f` line from its words.
pub fn parse_face(line: &[u8], words: &Vec<Span>) -> (face: Result<Face, MeshError>)
    requires
        words@.len() >= 1,
        forall|i: int|
            0 <= i < words@.len() ==> (#[trigger] words@[i]).start <= words@[i].end <= line@.len(),
    ensures
        face == face_of(line@, words@),
{
    let ghost rest = words@.subrange(1, words@.len() as int);
    let mut fields: Vec<Span> = Vec::new();
    let mut w: usize = 1;
    while w < words.len()
        invariant
            1 <= w <= words@.len(),
            forall|i: int|
                0 <= i < words@.len() ==> (#[trigger] words@[i]).start <= words@[i].end
                    <= line@.len(),
            fields@ == fields_of_all(line@, words@.subrange(1, w as int)),
        decreases words@.len() - w,
    {
        let word: Span = words[w];
        proof {
            let upto = words@.subrange(1, w + 1);
            assert(upto.drop_last() =~= words@.subrange(1, w as int));
            assert(upto.last() == word);
        }
        split_fields(line, word, &mut fields);
        w += 1;
    }
    proof {
        assert(words@.subrange(1, w as int) =~= rest);
    }
    let mut indices: Vec<usize> = Vec::new();
    let mut i: usize = 0;
    while i < fields.len()
        invariant
            i <= fields@.len(),
            indices@.len() == i,
            fields@ == fields_of_all(line@, rest),
            rest == words@.subrange(1, words@.len() as int),
            forall|j: int| 0 <= j < i ==> index_at(line@, #[trigger] fields@[j]) == Some(indices@[j]),
        decreases fields@.len() - i,
    {
        match parse_index(line, fields[i]) {
            Some(index) => {
                indices.push(index);
            },
            None => {
                return Err(MeshError::MalformedFace);
            },
        }
        i += 1;
    }
    if indices.len() < 9 {
        return Err(MeshError::MalformedFace);
    }
    proof {
        let named = face_indices(line@, words@);
        assert(named is Some);
        assert(named.unwrap() =~= indices@);
    }
    Ok(
        Face {
            verts: [indices[0], indices[3], indices[6]],
            normals: [indices[2], indices[5], indices[8]],
        },
    )
}

/// Reads one line of the text.
pub fn parse_line(line: &[u8]) -> (result: Result<Line, MeshError>)
    ensures
        result == line_of(line@),
{
    let words = tokenize(line);
    if words.len() == 0 {
        return Ok(Line::Other);
    }
    let head: Span = words[0];
    let ghost name = line@.subrange(head.start as int, head.end as int);
    let length: usize = head.end - head.start;
    let is_v: bool = length == 1 && line[head.start] == 118;
    let is_vn: bool = length == 2 && line[head.start] == 118 && line[head.start + 1] == 110;
    let is_f: bool = length == 1 && line[head.start] == 102;
    proof {
        assert(name.len() == length);
        assert(name[0] == line@[head.start as int]);
        if length == 2 {
            assert(name[1] == line@[head.start + 1]);
        }
        assert(is_v == word_is(line@, head, seq![118u8])) by {
            if is_v {
                assert(name =~= seq![118u8]);
            } else if name == seq![118u8] {
                assert(seq![118u8].len() == 1);
                assert(seq![118u8][0] == 118u8);
            }
        }
        assert(is_vn == word_is(line@, head, seq![118u8, 110u8])) by {
            if is_vn {
                assert(name =~= seq![118u8, 110u8]);
            } else if name == seq![118u8, 110u8] {
                assert(seq![118u8, 110u8].len() == 2);
                assert(seq![118u8, 110u8][0] == 118u8);
                assert(seq![118u8, 110u8][1] == 110u8);
            }
        }
        assert(is_f == word_is(line@, head, seq![102u8])) by {
            if is_f {
                assert(name =~= seq![102u8]);
            } else if name == seq![102u8] {
                assert(seq![102u8].len() == 1);
                assert(seq![102u8][0] == 102u8);
            }
        }
    }
    if is_v {
        if words.len() >= 4 {
            Ok(Line::Vertex(words[1], words[2], words[3]))
        } else {
            Err(MeshError::MissingCoordinate)
        }
    } else if is_vn {
        if words.len() >= 4 {
            Ok(Line::Normal(words[1], words[2], words[3]))
        } else {
            Err(MeshError::MissingCoordinate)
        }
    } else if is_f {
        match parse_face(line, &words) {
            Ok(face) => Ok(Line::Face(face)),
            Err(e) => Err(e),
        }
    } else {
        Ok(Line::Other)
    }
}

/// The kind of a mesh with `n_normals` vertex normals.
pub open spec fn kind_of(n_normals: usize) -> MeshKind {
    if n_normals > 0 {
        MeshKind::Smooth
    } else {
        MeshKind::Flat
    }
}

/// The place of the first face that refers to what is not there, or the
/// number of faces where every face is in range.
pub open spec fn first_bad_face(faces: Seq<Face>, n_verts: usize, n_normals: usize) -> int {
    first_index(faces, |face: Face| !face_in_range(face, n_verts, n_normals))
}

/// Whether `mesh` is what `faces` make with `n_verts` vertices and
/// `n_normals` vertex normals: the mesh of these faces where all of them
/// are in range, and else the refusal that names the first that is not.
pub open spec fn assembles_to(
    mesh: Result<Mesh, MeshError>,
    n_verts: usize,
    n_normals: usize,
    faces: Seq<Face>,
) -> bool {
    let bad = first_bad_face(faces, n_verts, n_normals);
    if 0 <= bad < faces.len() {
        mesh matches Err(e) && e == (MeshError::MalformedMeshReference { face: bad as usize })
    } else {
        mesh matches Ok(m) && m.faces@ == faces && m.kind == kind_of(n_normals)
    }
}

/// Puts a mesh together from its faces, given how many vertices and vertex
/// normals were read. The mesh is smooth where there are vertex normals and
/// flat where there are none. It is refused with the place of its first face
/// that refers to a vertex, or in a smooth mesh to a normal, that is not
/// there.
pub fn assemble(n_verts: usize, n_normals: usize, faces: Vec<Face>) -> (mesh: Result<
    Mesh,
    MeshError,
>)
    ensures
        assembles_to(mesh, n_verts, n_normals, faces@),
        mesh is Ok ==> forall|i: int|
            0 <= i < faces@.len() ==> face_in_range(#[trigger] faces@[i], n_verts, n_normals),
{
    let ghost bad = |face: Face| !face_in_range(face, n_verts, n_normals);
    let mut i: usize = 0;
    while i < faces.len()
        invariant
            i <= faces@.len(),
            bad == (|face: Face| !face_in_range(face, n_verts, n_normals)),
            forall|j: int| 0 <= j < i ==> !bad(#[trigger] faces@[j]),
        decreases faces@.len() - i,
    {
        let face: Face = faces[i];
        let verts_ok: bool = face.verts[0] < n_verts && face.verts[1] < n_verts && face.verts[2]
            < n_verts;
        let normals_ok: bool = n_normals == 0 || (face.normals[0] < n_normals && face.normals[1]
            < n_normals && face.normals[2] < n_normals);
        if !(verts_ok && normals_ok) {
            proof {
                assert(!face_in_range(face, n_verts, n_normals));
                lemma_first_index(faces@, bad, i as int);
            }
            return Err(MeshError::MalformedMeshReference { face: i });
        }
        i += 1;
    }
    proof {
        lemma_first_index(faces@, bad, faces@.len() as int);
    }
    let kind = if n_normals > 0 {
        MeshKind::Smooth
    } else {
        MeshKind::Flat
    };
    Ok(Mesh { kind, faces })
}

/// Where the line that starts at `from` ends: at the next line feed, or at
/// the end of the text.
pub open spec fn line_end(s: Seq<u8>, from: int) -> int
    decreases s.len() - from,
{
    if 0 <= from < s.len() && s[from] != 10 {
        line_end(s, from + 1)
    } else {
        from
    }
}

/// The lines of the text from `from` on, each without its line feed. A line
/// feed ends a line; it does not start an empty one at the end of the text.
pub open spec fn lines_from(s: Seq<u8>, from: int) -> Seq<Span>
    decreases s.len() - from,
{
    let end = line_end(s, from);
    if 0 <= from <= end < s.len() {
        seq![Span { start: from as usize, end: end as usize }] + lines_from(s, end + 1)
    } else if 0 <= from < end == s.len() {
        seq![Span { start: from as usize, end: end as usize }]
    } else {
        Seq::empty()
    }
}

/// A place in a line, as a place in the text in which the line starts at
/// `by`.
pub open spec fn shifted(span: Span, by: usize) -> Span {
    Span { start: (span.start + by) as usize, end: (span.end + by) as usize }
}

/// What the lines `lines` of the text `s` list, one after the other: the
/// coordinates of the vertices, those of the vertex normals, and the faces;
/// or the fault of the first line that has one.
pub open spec fn listing(s: Seq<u8>, lines: Seq<Span>) -> Result<
    (Seq<Coordinates>, Seq<Coordinates>, Seq<Face>),
    MeshError,
>
    decreases lines.len(),
{
    if lines.len() == 0 {
        Ok((Seq::empty(), Seq::empty(), Seq::empty()))
    } else {
        let line = lines.last();
        match listing(s, lines.drop_last()) {
            Err(e) => Err(e),
            Ok(before) => match line_of(s.subrange(line.start as int, line.end as int)) {
                Err(e) => Err(e),
                Ok(Line::Vertex(x, y, z)) => Ok(
                    (
                        before.0.push(
                            Coordinates {
                                x: shifted(x, line.start),
                                y: shifted(y, line.start),
                                z: shifted(z, line.start),
                            },
                        ),
                        before.1,
                        before.2,
                    ),
                ),
                Ok(Line::Normal(x, y, z)) => Ok(
                    (
                        before.0,
                        before.1.push(
                            Coordinates {
                                x: shifted(x, line.start),
                                y: shifted(y, line.start),
                                z: shifted(z, line.start),
                            },
                        ),
                        before.2,
                    ),
                ),
                Ok(Line::Face(face)) => Ok((before.0, before.1, before.2.push(face))),
                Ok(Line::Other) => Ok(before),
            },
        }
    }
}

/// Whether `obj` is what the text `s` says: the fault of its first faulty
/// line; else what its lines list, with the faces put together to a mesh.
pub open spec fn reads_to(obj: Result<ObjText, MeshError>, s: Seq<u8>) -> bool {
    match listing(s, lines_from(s, 0)) {
        Err(e) => obj matches Err(f) && f == e,
        Ok(listed) => match obj {
            Ok(o) => o.vertices@ == listed.0 && o.normals@ == listed.1 && assembles_to(
                Ok(o.mesh),
                o.vertices.len(),
                o.normals.len(),
                listed.2,
            ),
            Err(e) => listed.0.len() <= usize::MAX && listed.1.len() <= usize::MAX
                && assembles_to(
                Err(e),
                listed.0.len() as usize,
                listed.1.len() as usize,
                listed.2,
            ),
        },
    }
}

/// A fault stays the fault, whatever lines follow.
pub proof fn lemma_listing_fault_stays(s: Seq<u8>, lines: Seq<Span>, more: Seq<Span>)
    requires
        listing(s, lines) is Err,
    ensures
        listing(s, lines + more) == listing(s, lines),
    decreases more.len(),
{
    if more.len() == 0 {
        assert(lines + more =~= lines);
    } else {
        lemma_listing_fault_stays(s, lines, more.drop_last());
        assert((lines + more).drop_last() =~= lines + more.drop_last());
    }
}

fn shift(span: Span, by: usize, limit: usize) -> (r: Span)
    requires
        span.start <= span.end,
        span.end + by <= limit,
    ensures
        r == shifted(span, by),
{
    Span { start: span.start + by, end: span.end + by }
}

/// Reads the text of a mesh: every line in turn, then the check that the
/// faces refer to what the text holds.
pub fn read_obj(text: &[u8]) -> (obj: Result<ObjText, MeshError>)
    ensures
        reads_to(obj, text@),
{
    let n: usize = text.len();
    let mut vertices: Vec<Coordinates> = Vec::new();
    let mut normals: Vec<Coordinates> = Vec::new();
    let mut faces: Vec<Face> = Vec::new();
    let mut pos: usize = 0;
    let ghost mut done: Seq<Span> = Seq::empty();
    while pos < n
        invariant
            n == text@.len(),
            pos <= n,
            lines_from(text@, 0) == done + lines_from(text@, pos as int),
            listing(text@, done) == Ok::<
                (Seq<Coordinates>, Seq<Coordinates>, Seq<Face>),
                MeshError,
            >((vertices@, normals@, faces@)),
        decreases n - pos,
    {
        let mut end: usize = pos;
        while end < n && text[end] != 10
            invariant
                n == text@.len(),
                pos <= end <= n,
                line_end(text@, pos as int) == line_end(text@, end as int),
            decreases n - end,
        {
            end += 1;
        }
        assert(line_end(text@, pos as int) == end);
        let ghost span = Span { start: pos, end };
        let line: &[u8] = slice_subrange(text, pos, end);
        let next: usize = if end < n {
            end + 1
        } else {
            n
        };
        proof {
            assert(lines_from(text@, n as int) == Seq::<Span>::empty());
            assert(lines_from(text@, pos as int) =~= seq![span] + lines_from(text@, next as int));
            assert(done.push(span) + lines_from(text@, next as int) =~= done + (seq![span]
                + lines_from(text@, next as int)));
            assert(done.push(span).drop_last() =~= done);
            assert(done.push(span).last() == span);
        }
        match parse_line(line) {
            Err(e) => {
                proof {
                    assert(listing(text@, done.push(span)) == Err::<
                        (Seq<Coordinates>, Seq<Coordinates>, Seq<Face>),
                        MeshError,
                    >(e));
                    lemma_listing_fault_stays(
                        text@,
                        done.push(span),
                        lines_from(text@, next as int),
                    );
                }
                return Err(e);
            },
            Ok(Line::Vertex(x, y, z)) => {
                proof {
                    lemma_tokens_are_the_words(line@);
                }
                vertices.push(
                    Coordinates { x: shift(x, pos, n), y: shift(y, pos, n), z: shift(z, pos, n) },
                );
            },
            Ok(Line::Normal(x, y, z)) => {
                proof {
                    lemma_tokens_are_the_words(line@);
                }
                normals.push(
                    Coordinates { x: shift(x, pos, n), y: shift(y, pos, n), z: shift(z, pos, n) },
                );
            },
            Ok(Line::Face(face)) => {
                faces.push(face);
            },
            Ok(Line::Other) => {},
        }
        proof {
            done = done.push(span);
        }
        pos = next;
    }
    proof {
        assert(lines_from(text@, pos as int) == Seq::<Span>::empty());
        assert(done + Seq::<Span>::empty() =~= done);
    }
    let n_verts: usize = vertices.len();
    let n_normals: usize = normals.len();
    match assemble(n_verts, n_normals, faces) {
        Ok(mesh) => Ok(ObjText { vertices, normals, mesh }),
        Err(e) => Err(e),
    }
}

/// Whether `word` is a word of `s`: a run of bytes that are no white space
/// and that white space or the edge of the text bounds on both sides.
pub open spec fn is_word(s: Seq<u8>, word: Span) -> bool {
    &&& 0 <= word.start < word.end <= s.len()
    &&& forall|i: int| word.start <= i < word.end ==> !is_space(#[trigger] s[i])
    &&& (word.start == 0 || is_space(s[word.start - 1]))
    &&& (word.end == s.len() || is_space(s[word.end as int]))
}

/// Whether the byte at `k` lies in one of `words`.
pub open spec fn covers(words: Seq<Span>, k: int) -> bool {
    exists|i: int| 0 <= i < words.len() && (#[trigger] words[i]).start <= k < words[i].end
}

/// A run ends within the text, holds only bytes of its kind, and is followed
/// by a byte of the other kind or by nothing.
pub proof fn lemma_run_end(s: Seq<u8>, from: int, spaces: bool)
    requires
        0 <= from <= s.len(),
    ensures
        from <= run_end(s, from, spaces) <= s.len(),
        forall|i: int| from <= i < run_end(s, from, spaces) ==> is_space(#[trigger] s[i]) == spaces,
        run_end(s, from, spaces) < s.len() ==> is_space(s[run_end(s, from, spaces)]) != spaces,
    decreases s.len() - from,
{
    if from < s.len() && is_space(s[from]) == spaces {
        lemma_run_end(s, from + 1, spaces);
    }
}

/// From a place that is not inside a word, `tokens_from` gives exactly the
/// words that follow, in their order.
pub proof fn lemma_tokens_from_are_words(s: Seq<u8>, from: int)
    requires
        0 <= from <= s.len() <= usize::MAX,
        from == 0 || from == s.len() || is_space(s[from - 1]) || is_space(s[from]),
    ensures
        forall|i: int|
            0 <= i < tokens_from(s, from).len() ==> is_word(s, #[trigger] tokens_from(s, from)[i])
                && from <= tokens_from(s, from)[i].start,
        forall|i: int, j: int|
            0 <= i < j < tokens_from(s, from).len() ==> (#[trigger] tokens_from(s, from)[i]).end < (
            #[trigger] tokens_from(s, from)[j]).start,
        forall|k: int|
            from <= k < s.len() && !is_space(#[trigger] s[k]) ==> covers(tokens_from(s, from), k),
    decreases s.len() - from,
{
    let start = run_end(s, from, true);
    lemma_run_end(s, from, true);
    let end = run_end(s, start, false);
    lemma_run_end(s, start, false);
    let all = tokens_from(s, from);
    if start < end {
        let word = Span { start: start as usize, end: end as usize };
        let rest = tokens_from(s, end);
        lemma_tokens_from_are_words(s, end);
        assert(all == seq![word] + rest);
        assert(is_word(s, word)) by {
            if start > from {
                assert(is_space(s[start - 1]));
            }
        }
        assert forall|i: int| 0 <= i < all.len() implies is_word(s, #[trigger] all[i]) && from
            <= all[i].start by {
            if i > 0 {
                assert(all[i] == rest[i - 1]);
            }
        }
        assert forall|i: int, j: int| 0 <= i < j < all.len() implies (#[trigger] all[i]).end < (
        #[trigger] all[j]).start by {
            assert(all[j] == rest[j - 1]);
            if i > 0 {
                assert(all[i] == rest[i - 1]);
            } else {
                assert(is_word(s, rest[j - 1]));
                if j > 1 {
                    assert(rest[0].end < rest[j - 1].start);
                    assert(is_word(s, rest[0]));
                }
                assert(!is_space(s[end - 1]));
            }
        }
        assert forall|k: int| from <= k < s.len() && !is_space(#[trigger] s[k]) implies covers(
            all,
            k,
        ) by {
            if k < end {
                assert(start <= k);
                assert(all[0] == word);
            } else {
                assert(covers(rest, k));
                let i = choose|i: int|
                    0 <= i < rest.len() && (#[trigger] rest[i]).start <= k < rest[i].end;
                assert(all[i + 1] == rest[i]);
            }
        }
    } else {
        assert(all.len() == 0);
    }
}

/// The words of a line are exactly its longest runs of bytes that are no
/// white space, from left to right: each is such a run, they follow one
/// another, and every byte that is no white space lies in one of them.
pub proof fn lemma_tokens_are_the_words(s: Seq<u8>)
    requires
        s.len() <= usize::MAX,
    ensures
        forall|i: int| 0 <= i < tokens(s).len() ==> is_word(s, #[trigger] tokens(s)[i]),
        forall|i: int, j: int|
            0 <= i < j < tokens(s).len() ==> (#[trigger] tokens(s)[i]).end < (
            #[trigger] tokens(s)[j]).start,
        forall|k: int| 0 <= k < s.len() && !is_space(#[trigger] s[k]) ==> covers(tokens(s), k),
{
    lemma_tokens_from_are_words(s, 0);
}

} // verus!
