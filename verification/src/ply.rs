//! The PLY splat-file format: a text header of lines ending in `end_header`,
//! then the vertex records as 4-byte float words.
//!
//! The header is read line by line; each line must be UTF-8 and is trimmed of
//! white space. A line beginning `element vertex` sets the vertex count to its
//! third token; a line beginning `property` adds one property, named by its
//! third token; the line `end_header` ends the header. The data that follows
//! holds `vertex_count` records of one 4-byte word per property. Of each record
//! fourteen words are kept, picked by property name: `x`, `y`, `z` (position),
//! `scale_0..2` (log-scales), `f_dc_0..2` (diffuse colour), `opacity`, and
//! `rot_0..3` (rotation quaternion). Where a name occurs more than once, its
//! first property counts; where no property has a field's name, the field is
//! read from the property at its position in that list (so a file whose first
//! fourteen properties are the splat fields in that order is read the same
//! whatever they are called). Vertices need at least fourteen properties.
use vstd::prelude::*;
use vstd::slice::slice_subrange;
use vstd::utf8::*;

use crate::text::{
    decode_utf8_line, equals_chars, nth_token, nth_token_range, parse_usize, parse_usize_range,
    starts_with, starts_with_chars, trim, trimmed, chars_in_range, same_chars,
};

verus! {

/// Why a PLY file could not be read.
#[derive(Debug, Clone, Copy, PartialEq, Eq, Structural)]
pub enum PlyError {
    /// A header line is not well-formed UTF-8.
    InvalidUtf8,
    /// The bytes ran out before an `end_header` line.
    MissingEndHeader,
    /// An `element vertex` line whose third token is missing or is not a `usize`.
    BadVertexCount,
    /// A `property` line with fewer than three tokens.
    MissingPropertyName,
    /// `vertex_count * property_count * 4` does not fit in a `usize`.
    SizeOverflow,
    /// Fewer data bytes follow the header than the header announces.
    TruncatedData,
    /// Vertices are announced with fewer than fourteen properties each.
    TooFewProperties,
}

/// What a header line, once trimmed, says.
#[derive(Debug, Clone, Copy, PartialEq, Eq, Structural)]
pub enum LineKind {
    /// `end_header`.
    EndHeader,
    /// `element vertex ...`, with the vertex count if its third token is one.
    VertexCount(Option<usize>),
    /// `property ...`, and whether it has a third token (the property's name).
    Property(bool),
    /// Anything else (`ply`, `format ...`, `comment ...`, other elements).
    Other,
}

/// The facts a header gives: where the data starts, how many vertices it
/// holds, and the names of their properties, in order.
#[derive(Debug, PartialEq, Eq)]
pub struct PlyHeader {
    pub data_start: usize,
    pub vertex_count: usize,
    pub property_names: Vec<Vec<char>>,
}

/// The character sequences of a list of names.
pub open spec fn names_of(v: Seq<Vec<char>>) -> Seq<Seq<char>> {
    v.map_values(|n: Vec<char>| n@)
}

/// One splat, each float kept as the 4 bytes it is stored in.
#[derive(Debug, Clone, Copy, PartialEq, Eq)]
pub struct GaussianVertex {
    /// position of the splat
    pub position: [[u8; 4]; 3],
    /// log-scales of the gaussian
    pub scale: [[u8; 4]; 3],
    /// diffuse colour
    pub diffuse: [[u8; 4]; 3],
    /// transparency
    pub opacity: [u8; 4],
    /// rotation quaternion
    pub rotation: [[u8; 4]; 4],
}

impl GaussianVertex {
    /// The bytes of word `k` (0 to 13) of the record, in file order.
    pub open spec fn word(self, k: int) -> Seq<u8> {
        if k < 3 {
            self.position@[k]@
        } else if k < 6 {
            self.scale@[k - 3]@
        } else if k < 9 {
            self.diffuse@[k - 6]@
        } else if k == 9 {
            self.opacity@
        } else {
            self.rotation@[k - 10]@
        }
    }
}

/// `element vertex`
pub open spec fn element_vertex_keyword() -> Seq<char> {
    seq!['e', 'l', 'e', 'm', 'e', 'n', 't', ' ', 'v', 'e', 'r', 't', 'e', 'x']
}

/// `property`
pub open spec fn property_keyword() -> Seq<char> {
    seq!['p', 'r', 'o', 'p', 'e', 'r', 't', 'y']
}

/// `end_header`
pub open spec fn end_header_keyword() -> Seq<char> {
    seq!['e', 'n', 'd', '_', 'h', 'e', 'a', 'd', 'e', 'r']
}

/// What the trimmed header line `t` says.
pub open spec fn classify(t: Seq<char>) -> LineKind {
    if starts_with(t, element_vertex_keyword()) {
        LineKind::VertexCount(
            match nth_token(t, 2) {
                Some(tok) => parse_usize(tok),
                None => None,
            },
        )
    } else if starts_with(t, property_keyword()) {
        LineKind::Property(nth_token(t, 2) is Some)
    } else if t == end_header_keyword() {
        LineKind::EndHeader
    } else {
        LineKind::Other
    }
}

/// Where the line that starts at `start` ends: just after its newline byte, or
/// at the end of `bytes`.
pub open spec fn line_end(bytes: Seq<u8>, start: int) -> int
    decreases bytes.len() - start,
{
    if start < 0 || start >= bytes.len() {
        bytes.len() as int
    } else if bytes[start] == 0x0a {
        start + 1
    } else {
        line_end(bytes, start + 1)
    }
}

/// A line is never empty and never runs past the bytes; it ends with a newline
/// unless it runs to the end of the bytes.
pub proof fn lemma_line_end(bytes: Seq<u8>, start: int)
    requires
        0 <= start < bytes.len(),
    ensures
        start < line_end(bytes, start) <= bytes.len(),
        line_end(bytes, start) < bytes.len() ==> bytes[line_end(bytes, start) - 1] == 0x0a,
    decreases bytes.len() - start,
{
    if bytes[start] != 0x0a {
        if start + 1 < bytes.len() {
            lemma_line_end(bytes, start + 1);
        } else {
            assert(line_end(bytes, start + 1) == bytes.len());
        }
    }
}

/// The header read from the line at `pos` on, with `count` vertices and the
/// property names `names` announced so far: the data start, the vertex count
/// and the property names, or the first error met.
pub open spec fn scan_header(bytes: Seq<u8>, pos: int, count: nat, names: Seq<Seq<char>>) -> Result<
    (nat, nat, Seq<Seq<char>>),
    PlyError,
>
    decreases bytes.len() - pos,
{
    if pos < 0 || pos >= bytes.len() {
        Err(PlyError::MissingEndHeader)
    } else {
        let end = line_end(bytes, pos);
        let line = bytes.subrange(pos, end);
        proof {
            lemma_line_end(bytes, pos);
        }
        if !valid_utf8(line) {
            Err(PlyError::InvalidUtf8)
        } else {
            let t = trim(decode_utf8(line));
            match classify(t) {
                LineKind::EndHeader => Ok((end as nat, count, names)),
                LineKind::VertexCount(Some(n)) => scan_header(bytes, end, n as nat, names),
                LineKind::VertexCount(None) => Err(PlyError::BadVertexCount),
                LineKind::Property(true) => scan_header(
                    bytes,
                    end,
                    count,
                    names.push(nth_token(t, 2)->Some_0),
                ),
                LineKind::Property(false) => Err(PlyError::MissingPropertyName),
                LineKind::Other => scan_header(bytes, end, count, names),
            }
        }
    }
}

/// The header of `bytes`: `(data_start, vertex_count, property_names)`.
pub open spec fn spec_header(bytes: Seq<u8>) -> Result<(nat, nat, Seq<Seq<char>>), PlyError> {
    scan_header(bytes, 0, 0, Seq::empty())
}

/// The property name field `k` (0 to 13, in the order of `GaussianVertex::word`)
/// is read from.
pub open spec fn field_name(k: int) -> Seq<char> {
    if k == 0 {
        seq!['x']
    } else if k == 1 {
        seq!['y']
    } else if k == 2 {
        seq!['z']
    } else if k == 3 {
        seq!['s', 'c', 'a', 'l', 'e', '_', '0']
    } else if k == 4 {
        seq!['s', 'c', 'a', 'l', 'e', '_', '1']
    } else if k == 5 {
        seq!['s', 'c', 'a', 'l', 'e', '_', '2']
    } else if k == 6 {
        seq!['f', '_', 'd', 'c', '_', '0']
    } else if k == 7 {
        seq!['f', '_', 'd', 'c', '_', '1']
    } else if k == 8 {
        seq!['f', '_', 'd', 'c', '_', '2']
    } else if k == 9 {
        seq!['o', 'p', 'a', 'c', 'i', 't', 'y']
    } else if k == 10 {
        seq!['r', 'o', 't', '_', '0']
    } else if k == 11 {
        seq!['r', 'o', 't', '_', '1']
    } else if k == 12 {
        seq!['r', 'o', 't', '_', '2']
    } else {
        seq!['r', 'o', 't', '_', '3']
    }
}

/// Whether `i` is the first position of the name `f` in `names`.
pub open spec fn is_first_index(names: Seq<Seq<char>>, f: Seq<char>, i: int) -> bool {
    &&& 0 <= i < names.len()
    &&& names[i] == f
    &&& forall|j: int| 0 <= j < i ==> names[j] != f
}

/// Whether the name `f` occurs in `names`.
pub open spec fn has_name(names: Seq<Seq<char>>, f: Seq<char>) -> bool {
    exists|i: int| 0 <= i < names.len() && names[i] == f
}

/// The property that field `k` is read from: the first with its name, or,
/// where no property has its name, the property at position `k`.
pub open spec fn field_index(names: Seq<Seq<char>>, k: int) -> int {
    if has_name(names, field_name(k)) {
        choose|i: int| is_first_index(names, field_name(k), i)
    } else {
        k
    }
}

/// A name has at most one first position.
pub proof fn lemma_first_index_unique(names: Seq<Seq<char>>, k: int, i: int)
    requires
        is_first_index(names, field_name(k), i),
    ensures
        field_index(names, k) == i,
{
    let j = field_index(names, k);
    assert(is_first_index(names, field_name(k), j));
    if j < i {
        assert(names[j] != field_name(k));
    } else if i < j {
        assert(names[i] != field_name(k));
    }
}

/// The first problem, if any, with data of `vc` vertices with the properties
/// `names` that starts at `start` in `len` bytes.
pub open spec fn body_error(len: int, start: nat, vc: nat, names: Seq<Seq<char>>) -> Option<PlyError> {
    let pc = names.len();
    if vc * pc * 4 > usize::MAX {
        Some(PlyError::SizeOverflow)
    } else if len - start < vc * pc * 4 {
        Some(PlyError::TruncatedData)
    } else if vc > 0 && pc < 14 {
        Some(PlyError::TooFewProperties)
    } else {
        None
    }
}

/// The header of `bytes` once the data it announces has been checked against
/// the bytes that follow it.
pub open spec fn spec_layout(bytes: Seq<u8>) -> Result<(nat, nat, Seq<Seq<char>>), PlyError> {
    match spec_header(bytes) {
        Err(e) => Err(e),
        Ok((start, vc, names)) => match body_error(bytes.len() as int, start, vc, names) {
            Some(e) => Err(e),
            None => Ok((start, vc, names)),
        },
    }
}

/// The 4 bytes of data word `index`, counted from `start`.
pub open spec fn word_at(bytes: Seq<u8>, start: int, index: int) -> Seq<u8> {
    bytes.subrange(start + 4 * index, start + 4 * index + 4)
}

/// Whether `g` is vertex `v` of data that starts at `start` and has one word
/// per property of `names`: each field is the word of the property it is named by.
pub open spec fn vertex_from(bytes: Seq<u8>, start: int, names: Seq<Seq<char>>, v: int, g: GaussianVertex) -> bool {
    forall|k: int|
        0 <= k < 14 ==> #[trigger] g.word(k) == word_at(
            bytes,
            start,
            v * names.len() + field_index(names, k),
        )
}

/// Whether `vs` are the `vc` vertices of the data that starts at `start` and
/// has one word per property of `names`.
pub open spec fn vertices_from(bytes: Seq<u8>, start: int, vc: int, names: Seq<Seq<char>>, vs: Seq<GaussianVertex>) -> bool {
    &&& vs.len() == vc
    &&& forall|i: int| 0 <= i < vc ==> vertex_from(bytes, start, names, i, #[trigger] vs[i])
}

/// Whether `vs` is what a successful read of the PLY file `bytes` gives.
pub open spec fn parsed_as(bytes: Seq<u8>, vs: Seq<GaussianVertex>) -> bool {
    match spec_layout(bytes) {
        Ok((start, vc, names)) => vertices_from(bytes, start as int, vc as int, names, vs),
        Err(_) => false,
    }
}

/// Where the line that starts at `start` ends.
pub fn find_line_end(bytes: &[u8], start: usize) -> (end: usize)
    requires
        start < bytes@.len(),
    ensures
        end == line_end(bytes@, start as int),
{
    let mut i = start;
    while i < bytes.len() && bytes[i] != 0x0a
        invariant
            start <= i <= bytes@.len(),
            line_end(bytes@, start as int) == line_end(bytes@, i as int),
        decreases bytes@.len() - i,
    {
        i = i + 1;
    }
    if i < bytes.len() {
        i + 1
    } else {
        i
    }
}

/// What the trimmed header line `t` says (see `classify`).
pub fn classify_line(t: &Vec<char>) -> (kind: LineKind)
    ensures
        kind == classify(t@),
{
    let element_vertex: [char; 14] = [
        'e', 'l', 'e', 'm', 'e', 'n', 't', ' ', 'v', 'e', 'r', 't', 'e', 'x',
    ];
    let property: [char; 8] = ['p', 'r', 'o', 'p', 'e', 'r', 't', 'y'];
    let end_header: [char; 10] = ['e', 'n', 'd', '_', 'h', 'e', 'a', 'd', 'e', 'r'];
    assert(element_vertex@ =~= element_vertex_keyword());
    assert(property@ =~= property_keyword());
    assert(end_header@ =~= end_header_keyword());
    if starts_with_chars(t, &element_vertex) {
        match nth_token_range(t, 2) {
            Some((a, b)) => LineKind::VertexCount(parse_usize_range(t, a, b)),
            None => LineKind::VertexCount(None),
        }
    } else if starts_with_chars(t, &property) {
        LineKind::Property(nth_token_range(t, 2).is_some())
    } else if equals_chars(t, &end_header) {
        LineKind::EndHeader
    } else {
        LineKind::Other
    }
}

/// Reads the header of a PLY file.
pub fn parse_header(bytes: &[u8]) -> (res: Result<PlyHeader, PlyError>)
    ensures
        match res {
            Ok(h) => spec_header(bytes@) == Ok::<(nat, nat, Seq<Seq<char>>), PlyError>(
                (h.data_start as nat, h.vertex_count as nat, names_of(h.property_names@)),
            ),
            Err(e) => spec_header(bytes@) == Err::<(nat, nat, Seq<Seq<char>>), PlyError>(e),
        },
{
    let len = bytes.len();
    let mut pos: usize = 0;
    let mut count: usize = 0;
    let mut names: Vec<Vec<char>> = Vec::new();
    assert(names_of(names@) =~= Seq::<Seq<char>>::empty());
    loop
        invariant
            pos <= len,
            len == bytes@.len(),
            names@.len() <= pos,
            spec_header(bytes@) == scan_header(bytes@, pos as int, count as nat, names_of(names@)),
        decreases len - pos,
    {
        if pos >= len {
            return Err(PlyError::MissingEndHeader);
        }
        let end = find_line_end(bytes, pos);
        proof {
            lemma_line_end(bytes@, pos as int);
        }
        let line = slice_subrange(bytes, pos, end);
        let chars = match decode_utf8_line(line) {
            Some(cs) => cs,
            None => {
                return Err(PlyError::InvalidUtf8);
            },
        };
        let t = trimmed(&chars);
        match classify_line(&t) {
            LineKind::EndHeader => {
                return Ok(PlyHeader { data_start: end, vertex_count: count, property_names: names });
            },
            LineKind::VertexCount(Some(n)) => {
                count = n;
            },
            LineKind::VertexCount(None) => {
                return Err(PlyError::BadVertexCount);
            },
            LineKind::Property(true) => {
                match nth_token_range(&t, 2) {
                    Some((a, b)) => {
                        let name = chars_in_range(&t, a, b);
                        let ghost before = names@;
                        names.push(name);
                        assert(names_of(names@) =~= names_of(before).push(name@));
                    },
                    None => {
                        return Err(PlyError::MissingPropertyName);
                    },
                }
            },
            LineKind::Property(false) => {
                return Err(PlyError::MissingPropertyName);
            },
            LineKind::Other => {},
        }
        pos = end;
    }
}

/// The characters of the property name field `k` is read from.
fn field_name_chars(k: usize) -> (f: Vec<char>)
    requires
        k < 14,
    ensures
        f@ == field_name(k as int),
{
    let f: Vec<char> = if k == 0 {
        vec!['x']
    } else if k == 1 {
        vec!['y']
    } else if k == 2 {
        vec!['z']
    } else if k == 3 {
        vec!['s', 'c', 'a', 'l', 'e', '_', '0']
    } else if k == 4 {
        vec!['s', 'c', 'a', 'l', 'e', '_', '1']
    } else if k == 5 {
        vec!['s', 'c', 'a', 'l', 'e', '_', '2']
    } else if k == 6 {
        vec!['f', '_', 'd', 'c', '_', '0']
    } else if k == 7 {
        vec!['f', '_', 'd', 'c', '_', '1']
    } else if k == 8 {
        vec!['f', '_', 'd', 'c', '_', '2']
    } else if k == 9 {
        vec!['o', 'p', 'a', 'c', 'i', 't', 'y']
    } else if k == 10 {
        vec!['r', 'o', 't', '_', '0']
    } else if k == 11 {
        vec!['r', 'o', 't', '_', '1']
    } else if k == 12 {
        vec!['r', 'o', 't', '_', '2']
    } else {
        vec!['r', 'o', 't', '_', '3']
    };
    assert(f@ =~= field_name(k as int));
    f
}

/// The first property named as field `k`, if there is one.
pub fn find_field(names: &Vec<Vec<char>>, k: usize) -> (res: Option<usize>)
    requires
        k < 14,
    ensures
        match res {
            Some(i) => is_first_index(names_of(names@), field_name(k as int), i as int),
            None => !has_name(names_of(names@), field_name(k as int)),
        },
{
    let f = field_name_chars(k);
    let ghost ns = names_of(names@);
    let mut i: usize = 0;
    while i < names.len()
        invariant
            i <= names@.len(),
            ns == names_of(names@),
            f@ == field_name(k as int),
            forall|j: int| 0 <= j < i ==> ns[j] != f@,
        decreases names@.len() - i,
    {
        if same_chars(&names[i], &f) {
            return Some(i);
        }
        i = i + 1;
    }
    None
}

/// The 4 bytes at `o`.
fn read_word(bytes: &[u8], o: usize) -> (w: [u8; 4])
    requires
        o + 4 <= bytes@.len(),
    ensures
        w@ == bytes@.subrange(o as int, o + 4),
{
    let w = [bytes[o], bytes[o + 1], bytes[o + 2], bytes[o + 3]];
    assert(w@ =~= bytes@.subrange(o as int, o + 4));
    w
}

/// Record `v` begins at word `base` and ends inside the data.
proof fn lemma_record_in_data(v: int, vc: int, pc: int, base: int)
    requires
        0 <= v < vc,
        0 <= pc,
        base == v * pc,
    ensures
        base + pc <= vc * pc,
        (v + 1) * pc == base + pc,
{
    assert((v + 1) * pc <= vc * pc) by (nonlinear_arith)
        requires
            0 <= v < vc,
            0 <= pc,
    ;
    assert((v + 1) * pc == v * pc + pc) by (nonlinear_arith);
}

/// The word of field `k` of the record that begins at word `base`.
fn read_field(bytes: &[u8], start: usize, base: usize, fields: &Vec<usize>, k: usize) -> (w: [u8; 4])
    requires
        k < fields@.len(),
        start + 4 * (base + fields@[k as int]) + 4 <= bytes@.len(),
    ensures
        w@ == word_at(bytes@, start as int, base + fields@[k as int]),
{
    let len = bytes.len();
    assert(len == bytes@.len());
    read_word(bytes, start + 4 * (base + fields[k]))
}

/// Reads the vertices that the header `h` of `bytes` announces, each field
/// from the first property named as that field.
pub fn read_vertices(bytes: &[u8], h: &PlyHeader) -> (res: Result<Vec<GaussianVertex>, PlyError>)
    ensures
        match res {
            Err(e) => body_error(
                bytes@.len() as int,
                h.data_start as nat,
                h.vertex_count as nat,
                names_of(h.property_names@),
            ) == Some(e),
            Ok(vs) => body_error(
                bytes@.len() as int,
                h.data_start as nat,
                h.vertex_count as nat,
                names_of(h.property_names@),
            ) is None && vertices_from(
                bytes@,
                h.data_start as int,
                h.vertex_count as int,
                names_of(h.property_names@),
                vs@,
            ),
        },
        (res matches Err(PlyError::SizeOverflow)) <==> h.vertex_count * h.property_names@.len()
            * 4 > usize::MAX,
        res is Ok <==> (h.vertex_count * h.property_names@.len() * 4 <= usize::MAX
            && h.data_start + h.vertex_count * h.property_names@.len() * 4 <= bytes@.len() && (
        h.vertex_count == 0 || h.property_names@.len() >= 14)),
        res matches Ok(vs) ==> vs@.len() == h.vertex_count,
{
    let ghost names = names_of(h.property_names@);
    let vc = h.vertex_count;
    let pc = h.property_names.len();
    let start = h.data_start;
    let size = match vc.checked_mul(pc) {
        Some(n) => match n.checked_mul(4) {
            Some(m) => m,
            None => {
                return Err(PlyError::SizeOverflow);
            },
        },
        None => {
            assert(vc * pc * 4 > usize::MAX) by (nonlinear_arith)
                requires
                    vc * pc > usize::MAX,
            ;
            return Err(PlyError::SizeOverflow);
        },
    };
    if start > bytes.len() || bytes.len() - start < size {
        return Err(PlyError::TruncatedData);
    }
    let mut out: Vec<GaussianVertex> = Vec::new();
    if vc == 0 {
        return Ok(out);
    }
    if pc < 14 {
        return Err(PlyError::TooFewProperties);
    }
    // the property each field is read from
    let mut fields: Vec<usize> = Vec::new();
    let mut k: usize = 0;
    while k < 14
        invariant
            k <= 14,
            names == names_of(h.property_names@),
            pc == names.len(),
            vc == h.vertex_count,
            vc > 0,
            start == h.data_start,
            size == vc * pc * 4,
            size <= usize::MAX,
            start <= bytes@.len(),
            bytes@.len() - start >= size,
            pc >= 14,
            fields@.len() == k,
            forall|m: int| 0 <= m < k ==> #[trigger] fields@[m] < pc && fields@[m] == field_index(names, m),
        decreases 14 - k,
    {
        match find_field(&h.property_names, k) {
            Some(i) => {
                proof {
                    lemma_first_index_unique(names, k as int, i as int);
                }
                fields.push(i);
            },
            None => {
                fields.push(k);
            },
        }
        k = k + 1;
    }
    let len = bytes.len();
    let mut v: usize = 0;
    let mut base: usize = 0;
    while v < vc
        invariant
            v <= vc,
            base == v * pc,
            size == vc * pc * 4,
            pc >= 14,
            start + size <= len,
            len == bytes@.len(),
            names == names_of(h.property_names@),
            pc == names.len(),
            fields@.len() == 14,
            forall|m: int| 0 <= m < 14 ==> #[trigger] fields@[m] < pc && fields@[m] == field_index(names, m),
            out@.len() == v,
            forall|i: int| 0 <= i < v ==> vertex_from(bytes@, start as int, names, i, #[trigger] out@[i]),
        decreases vc - v,
    {
        proof {
            lemma_record_in_data(v as int, vc as int, pc as int, base as int);
            assert forall|m: int| 0 <= m < 14 implies start + 4 * (base + #[trigger] fields@[m]) + 4 <= len by {
                assert(fields@[m] < pc);
                assert(4 * (base + fields@[m]) + 4 <= size) by (nonlinear_arith)
                    requires
                        base + pc <= vc * pc,
                        fields@[m] < pc,
                        size == vc * pc * 4,
                ;
            }
        }
        assert(start + 4 * (base + fields@[13]) + 4 <= len);
        let g = GaussianVertex {
            position: [
                read_field(bytes, start, base, &fields, 0),
                read_field(bytes, start, base, &fields, 1),
                read_field(bytes, start, base, &fields, 2),
            ],
            scale: [
                read_field(bytes, start, base, &fields, 3),
                read_field(bytes, start, base, &fields, 4),
                read_field(bytes, start, base, &fields, 5),
            ],
            diffuse: [
                read_field(bytes, start, base, &fields, 6),
                read_field(bytes, start, base, &fields, 7),
                read_field(bytes, start, base, &fields, 8),
            ],
            opacity: read_field(bytes, start, base, &fields, 9),
            rotation: [
                read_field(bytes, start, base, &fields, 10),
                read_field(bytes, start, base, &fields, 11),
                read_field(bytes, start, base, &fields, 12),
                read_field(bytes, start, base, &fields, 13),
            ],
        };
        assert forall|k: int| 0 <= k < 14 implies #[trigger] g.word(k) == word_at(
            bytes@,
            start as int,
            v * names.len() + field_index(names, k),
        ) by {
            assert(fields@[k] == field_index(names, k));
        }
        let ghost before = out@;
        out.push(g);
        assert forall|i: int| 0 <= i < v + 1 implies vertex_from(
            bytes@,
            start as int,
            names,
            i,
            #[trigger] out@[i],
        ) by {
            if i < v {
                assert(out@[i] == before[i]);
            }
        }
        v = v + 1;
        base = base + pc;
    }
    Ok(out)
}

/// Reads the splats of a PLY file held in `bytes`.
///
/// Every outcome is a value: bytes that end before an `end_header` line give
/// `MissingEndHeader` (more lines are never waited for); a malformed vertex
/// count, a nameless property, a data size past `usize`, or vertices with
/// fewer than fourteen properties give their errors;
/// and a header that announces no data (no vertices) gives no splats.
pub fn parse_ply(bytes: &[u8]) -> (res: Result<Vec<GaussianVertex>, PlyError>)
    ensures
        match res {
            Err(e) => spec_layout(bytes@) == Err::<(nat, nat, Seq<Seq<char>>), PlyError>(e),
            Ok(vs) => parsed_as(bytes@, vs@),
        },
        spec_header(bytes@) matches Ok((start, vc, names)) ==> {
            let size = vc * names.len() * 4;
            &&& res is Ok <==> (size <= usize::MAX && start + size <= bytes@.len() && (vc == 0
                || names.len() >= 14))
            &&& res matches Ok(vs) ==> vs@.len() == vc
            &&& (res matches Err(PlyError::SizeOverflow)) <==> size > usize::MAX
            &&& (res matches Err(PlyError::TruncatedData)) <==> (size <= usize::MAX && start
                + size > bytes@.len())
        },
        res matches Err(PlyError::SizeOverflow) ==> spec_header(bytes@) is Ok,
        res matches Err(PlyError::TruncatedData) ==> spec_header(bytes@) is Ok,
{
    proof {
        lemma_layout_outcomes(bytes@);
        lemma_header_errors(bytes@, 0, 0, Seq::empty());
    }
    let h = parse_header(bytes)?;
    read_vertices(bytes, &h)
}

/// Reading a header never fails for a reason that concerns the data.
pub proof fn lemma_header_errors(bytes: Seq<u8>, pos: int, count: nat, names: Seq<Seq<char>>)
    ensures
        scan_header(bytes, pos, count, names) matches Err(e) ==> e != PlyError::SizeOverflow && e
            != PlyError::TruncatedData && e != PlyError::TooFewProperties,
    decreases bytes.len() - pos,
{
    if 0 <= pos < bytes.len() {
        lemma_line_end(bytes, pos);
        let end = line_end(bytes, pos);
        let line = bytes.subrange(pos, end);
        if valid_utf8(line) {
            let t = trim(decode_utf8(line));
            match classify(t) {
                LineKind::VertexCount(Some(n)) => lemma_header_errors(bytes, end, n as nat, names),
                LineKind::Property(true) => lemma_header_errors(
                    bytes,
                    end,
                    count,
                    names.push(nth_token(t, 2)->Some_0),
                ),
                LineKind::Other => lemma_header_errors(bytes, end, count, names),
                _ => {},
            }
        }
    }
}

/// When the header of a file is read, reading its data succeeds exactly when
/// the data fits: the size `vertex_count * properties * 4` fits in a `usize`,
/// that many bytes follow the header, and vertices, if there are any, have at
/// least fourteen properties. A size past `usize` is the only cause of
/// `SizeOverflow`, too few bytes after the header the only cause of
/// `TruncatedData`, and a file that reads gives the header's facts.
pub proof fn lemma_layout_outcomes(bytes: Seq<u8>)
    ensures
        spec_header(bytes) matches Ok((start, vc, names)) ==> {
            let size = vc * names.len() * 4;
            &&& spec_layout(bytes) is Ok <==> (size <= usize::MAX && start + size <= bytes.len()
                && (vc == 0 || names.len() >= 14))
            &&& spec_layout(bytes) is Ok ==> spec_layout(bytes) == spec_header(bytes)
            &&& spec_layout(bytes) == Err::<(nat, nat, Seq<Seq<char>>), PlyError>(
                PlyError::SizeOverflow,
            ) <==> size > usize::MAX
            &&& spec_layout(bytes) == Err::<(nat, nat, Seq<Seq<char>>), PlyError>(
                PlyError::TruncatedData,
            ) <==> (size <= usize::MAX && start + size > bytes.len())
            &&& spec_layout(bytes) == Err::<(nat, nat, Seq<Seq<char>>), PlyError>(
                PlyError::TooFewProperties,
            ) <==> (size <= usize::MAX && start + size <= bytes.len() && vc > 0 && names.len()
                < 14)
        },
        spec_header(bytes) is Err ==> spec_layout(bytes) == spec_header(bytes),
{
}

/// The data of a header starts after the line it is read from and never past
/// the end of the bytes; unless it starts at the very end, the `end_header`
/// line ends with a newline.
pub proof fn lemma_scan_within(bytes: Seq<u8>, pos: int, count: nat, names: Seq<Seq<char>>)
    ensures
        scan_header(bytes, pos, count, names) matches Ok((start, _, _)) ==> {
            &&& 0 <= pos < start <= bytes.len()
            &&& start < bytes.len() ==> bytes[start - 1] == 0x0a
        },
    decreases bytes.len() - pos,
{
    if 0 <= pos < bytes.len() {
        lemma_line_end(bytes, pos);
        let end = line_end(bytes, pos);
        let line = bytes.subrange(pos, end);
        if valid_utf8(line) {
            let t = trim(decode_utf8(line));
            match classify(t) {
                LineKind::VertexCount(Some(n)) => lemma_scan_within(bytes, end, n as nat, names),
                LineKind::Property(true) => lemma_scan_within(
                    bytes,
                    end,
                    count,
                    names.push(nth_token(t, 2)->Some_0),
                ),
                LineKind::Other => lemma_scan_within(bytes, end, count, names),
                _ => {},
            }
        }
    }
}

/// Whether the header of `bytes` is read and its `end_header` line ends with a
/// newline byte (rather than with the end of the bytes).
pub open spec fn header_ends_in_newline(bytes: Seq<u8>) -> bool {
    spec_header(bytes) matches Ok((start, _, _)) && 1 <= start <= bytes.len() && bytes[start - 1]
        == 0x0a
}

/// A line ends at the same place in two byte strings that agree up to `s`,
/// when the line ends before `s` with a newline, or the second string ends
/// where the line does.
proof fn lemma_line_end_agree(b1: Seq<u8>, b2: Seq<u8>, pos: int, s: int)
    requires
        0 <= pos < b1.len(),
        line_end(b1, pos) <= s <= b1.len(),
        s <= b2.len(),
        forall|i: int| 0 <= i < s ==> b1[i] == b2[i],
        b1[line_end(b1, pos) - 1] == 0x0a || line_end(b1, pos) == b2.len(),
    ensures
        line_end(b2, pos) == line_end(b1, pos),
    decreases b1.len() - pos,
{
    lemma_line_end(b1, pos);
    assert(b1[pos] == b2[pos]);
    if b1[pos] != 0x0a {
        if pos + 1 < b1.len() {
            lemma_line_end_agree(b1, b2, pos + 1, s);
        } else {
            assert(line_end(b1, pos + 1) == b1.len());
            assert(line_end(b2, pos + 1) == b2.len());
        }
    }
}

/// A header that is read from `b1` is read the same from any `b2` that agrees
/// with `b1` up to the data start, when the `end_header` line ends with a
/// newline or `b2` ends where that line does.
proof fn lemma_scan_agree(b1: Seq<u8>, b2: Seq<u8>, pos: int, count: nat, names: Seq<Seq<char>>)
    requires
        scan_header(b1, pos, count, names) matches Ok((start, _, _)) && {
            &&& start <= b2.len()
            &&& forall|i: int| 0 <= i < start ==> b1[i] == b2[i]
            &&& (b1[start - 1] == 0x0a || b2.len() == start)
        },
    ensures
        scan_header(b2, pos, count, names) == scan_header(b1, pos, count, names),
    decreases b1.len() - pos,
{
    let start = scan_header(b1, pos, count, names)->Ok_0.0;
    lemma_scan_within(b1, pos, count, names);
    lemma_line_end(b1, pos);
    let end = line_end(b1, pos);
    let line = b1.subrange(pos, end);
    let t = trim(decode_utf8(line));
    if valid_utf8(line) {
        match classify(t) {
            LineKind::VertexCount(Some(n)) => lemma_scan_within(b1, end, n as nat, names),
            LineKind::Property(true) => lemma_scan_within(
                b1,
                end,
                count,
                names.push(nth_token(t, 2)->Some_0),
            ),
            LineKind::Other => lemma_scan_within(b1, end, count, names),
            _ => {},
        }
    }
    assert(end <= start);
    lemma_line_end_agree(b1, b2, pos, start as int);
    assert(b2.subrange(pos, end) =~= line);
    if valid_utf8(line) {
        match classify(t) {
            LineKind::VertexCount(Some(n)) => {
                lemma_scan_agree(b1, b2, end, n as nat, names);
            },
            LineKind::Property(true) => {
                lemma_scan_agree(b1, b2, end, count, names.push(nth_token(t, 2)->Some_0));
            },
            LineKind::Other => {
                lemma_scan_agree(b1, b2, end, count, names);
            },
            _ => {},
        }
    }
}

/// A name that occurs has a first position.
pub proof fn lemma_first_index_exists(names: Seq<Seq<char>>, k: int, j: int)
    requires
        0 <= j < names.len(),
        names[j] == field_name(k),
    ensures
        is_first_index(names, field_name(k), field_index(names, k)),
    decreases j,
{
    if forall|m: int| 0 <= m < j ==> names[m] != field_name(k) {
        assert(is_first_index(names, field_name(k), j));
    } else {
        let m = choose|m: int| 0 <= m < j && names[m] == field_name(k);
        lemma_first_index_exists(names, k, m);
    }
}

/// Each field is read from one of the properties, when there are at least
/// fourteen of them.
pub proof fn lemma_field_index_in_range(names: Seq<Seq<char>>, k: int)
    requires
        0 <= k < 14,
        names.len() >= 14,
    ensures
        0 <= field_index(names, k) < names.len(),
{
    if has_name(names, field_name(k)) {
        let j = choose|j: int| 0 <= j < names.len() && names[j] == field_name(k);
        lemma_first_index_exists(names, k, j);
    }
}

/// Bytes after the data are ignored: when a PLY file whose `end_header` line
/// ends with a newline reads as the splats `vs`, the same file followed by any
/// further bytes reads as the same splats.
pub proof fn lemma_trailing_bytes_ignored(bytes: Seq<u8>, extra: Seq<u8>, vs: Seq<GaussianVertex>)
    requires
        parsed_as(bytes, vs),
        header_ends_in_newline(bytes),
    ensures
        parsed_as(bytes + extra, vs),
{
    let all = bytes + extra;
    lemma_scan_agree(bytes, all, 0, 0, Seq::empty());
    let (start, vc, names) = spec_layout(bytes)->Ok_0;
    let pc = names.len();
    assert(spec_layout(all) == spec_layout(bytes));
    assert forall|i: int| 0 <= i < vc implies vertex_from(all, start as int, names, i, #[trigger] vs[i]) by {
        assert(vertex_from(bytes, start as int, names, i, vs[i]));
        assert forall|k: int| 0 <= k < 14 implies #[trigger] vs[i].word(k) == word_at(
            all,
            start as int,
            i * pc + field_index(names, k),
        ) by {
            let f = field_index(names, k);
            lemma_field_index_in_range(names, k);
            lemma_record_in_data(i, vc as int, pc as int, i * pc);
            assert(4 * (i * pc + f) + 4 <= vc * pc * 4) by (nonlinear_arith)
                requires
                    i * pc + pc <= vc * pc,
                    0 <= f < pc,
            ;
            assert(word_at(all, start as int, i * pc + f) =~= word_at(bytes, start as int, i * pc + f));
        }
    }
}

/// Whether data word `w` (counted from the data start) holds one of the
/// fourteen fields of its record.
pub open spec fn is_field_word(names: Seq<Seq<char>>, w: int) -> bool {
    exists|k: int| 0 <= k < 14 && #[trigger] field_index(names, k) == w % (names.len() as int)
}

/// Only the fourteen named properties of each record are read: a file that
/// reads as the splats `vs` still reads as `vs` when any of its bytes after the
/// header are changed, except those of the words the splat fields are read from.
pub proof fn lemma_other_properties_ignored(bytes: Seq<u8>, other: Seq<u8>, vs: Seq<GaussianVertex>)
    requires
        parsed_as(bytes, vs),
        other.len() == bytes.len(),
        spec_layout(bytes) matches Ok((start, vc, names)) && forall|p: int|
            0 <= p < bytes.len() && other[p] != bytes[p] ==> start <= p && (p >= start + 4 * (vc
                * names.len()) || !is_field_word(names, (p - start) / 4)),
    ensures
        parsed_as(other, vs),
{
    let (start, vc, names) = spec_layout(bytes)->Ok_0;
    let pc = names.len();
    lemma_scan_within(bytes, 0, 0, Seq::empty());
    assert forall|i: int| 0 <= i < start implies bytes[i] == other[i] by {}
    lemma_scan_agree(bytes, other, 0, 0, Seq::empty());
    assert(spec_layout(other) == spec_layout(bytes));
    assert forall|i: int| 0 <= i < vc implies vertex_from(other, start as int, names, i, #[trigger] vs[i]) by {
        assert(vertex_from(bytes, start as int, names, i, vs[i]));
        assert forall|k: int| 0 <= k < 14 implies #[trigger] vs[i].word(k) == word_at(
            other,
            start as int,
            i * pc + field_index(names, k),
        ) by {
            let f = field_index(names, k);
            lemma_field_index_in_range(names, k);
            let w = i * pc + f;
            lemma_record_in_data(i, vc as int, pc as int, i * pc);
            assert(4 * w + 4 <= 4 * (vc * pc)) by (nonlinear_arith)
                requires
                    i * pc + pc <= vc * pc,
                    0 <= f < pc,
                    w == i * pc + f,
            ;
            vstd::arithmetic::div_mod::lemma_fundamental_div_mod_converse(w, pc as int, i, f);
            assert forall|p: int| start + 4 * w <= p < start + 4 * w + 4 implies #[trigger] other[p]
                == bytes[p] by {
                let r = p - start - 4 * w;
                vstd::arithmetic::div_mod::lemma_fundamental_div_mod_converse(p - start, 4, w, r);
                if other[p] != bytes[p] {
                    assert(field_index(names, k) == w % (pc as int));
                    assert(is_field_word(names, (p - start) / 4));
                }
            }
            assert(word_at(other, start as int, w) =~= word_at(bytes, start as int, w));
        }
    }
}

} // verus!
