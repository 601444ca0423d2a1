//! Line-oriented reader for Wavefront OBJ text.
//!
//! Every line becomes one record. Vertex, texture, normal and parameter lines
//! carry three decimal numbers, face lines three vertex references; every
//! other kind of line is kept as text and is of no further consequence.
use vstd::prelude::*;
use vstd::slice::slice_subrange;
use vstd::slice::slice_to_vec;
use vstd::string::StringSliceAdditionalSpecFns;

verus! {

/// A blank byte inside a line: space, tab, carriage return, vertical tab or form feed.
pub open spec fn is_blank(b: u8) -> bool {
    b == 32 || b == 9 || b == 13 || b == 11 || b == 12
}

pub open spec fn is_digit(b: u8) -> bool {
    48 <= b <= 57
}

/// The classes of bytes over which the reader scans.
#[derive(Clone, Copy, PartialEq, Eq, Structural)]
pub enum Run {
    Blank,
    Word,
    Digits,
    Line,
}

pub open spec fn in_run(k: Run, b: u8) -> bool {
    match k {
        Run::Blank => is_blank(b),
        Run::Word => !is_blank(b),
        Run::Digits => is_digit(b),
        Run::Line => b != 10,
    }
}

/// The first index at or after `i` whose byte is not of class `k`, or the length.
pub open spec fn run_end(l: Seq<u8>, i: int, k: Run) -> int
    decreases l.len() - i,
{
    if 0 <= i < l.len() && in_run(k, l[i]) {
        run_end(l, i + 1, k)
    } else {
        i
    }
}

pub proof fn lemma_run_end(l: Seq<u8>, i: int, k: Run)
    requires
        0 <= i <= l.len(),
    ensures
        i <= run_end(l, i, k) <= l.len(),
        forall|j: int| i <= j < run_end(l, i, k) ==> in_run(k, #[trigger] l[j]),
        run_end(l, i, k) < l.len() ==> !in_run(k, l[run_end(l, i, k)]),
    decreases l.len() - i,
{
    if i < l.len() && in_run(k, l[i]) {
        lemma_run_end(l, i + 1, k);
    }
}

/// Scans forward from `i` over bytes of class `k`.
pub fn scan(l: &[u8], i: usize, k: Run) -> (r: usize)
    requires
        i <= l@.len(),
    ensures
        r == run_end(l@, i as int, k),
{
    let mut j: usize = i;
    while j < l.len() && in_run_exec(k, l[j])
        invariant
            i <= j <= l@.len(),
            run_end(l@, j as int, k) == run_end(l@, i as int, k),
        decreases l@.len() - j,
    {
        j = j + 1;
    }
    j
}

fn in_run_exec(k: Run, b: u8) -> (r: bool)
    ensures
        r == in_run(k, b),
{
    match k {
        Run::Blank => b == 32 || b == 9 || b == 13 || b == 11 || b == 12,
        Run::Word => !(b == 32 || b == 9 || b == 13 || b == 11 || b == 12),
        Run::Digits => 48 <= b && b <= 57,
        Run::Line => b != 10,
    }
}


/// The value of a run of decimal digits.
pub open spec fn digits_value(d: Seq<u8>) -> nat
    decreases d.len(),
{
    if d.len() == 0 {
        0
    } else {
        digits_value(d.drop_last()) * 10 + (d.last() as int - 48) as nat
    }
}

pub const INDEX_MAX: u64 = 0x7fff_ffff;

/// The index written by the digits `t[a..b]`, where one is written there and
/// fits an `i32`.
pub open spec fn index_of(t: Seq<u8>, a: int, b: int) -> Option<i32> {
    if a < b && digits_value(t.subrange(a, b)) <= INDEX_MAX {
        Some(digits_value(t.subrange(a, b)) as i32)
    } else {
        None
    }
}

/// Reads the index written by the digits `t[a..b]`.
fn parse_index(t: &[u8], a: usize, b: usize) -> (r: Option<i32>)
    requires
        a <= b <= t@.len(),
        forall|j: int| a <= j < b ==> is_digit(#[trigger] t@[j]),
    ensures
        r == index_of(t@, a as int, b as int),
{
    let mut acc: u64 = 0;
    let mut big = false;
    let mut k: usize = a;
    while k < b
        invariant
            a <= k <= b <= t@.len(),
            forall|j: int| a <= j < b ==> is_digit(#[trigger] t@[j]),
            big == (digits_value(t@.subrange(a as int, k as int)) > INDEX_MAX),
            !big ==> acc == digits_value(t@.subrange(a as int, k as int)),
        decreases b - k,
    {
        let ghost before = t@.subrange(a as int, k as int);
        let ghost after = t@.subrange(a as int, k as int + 1);
        assert(after.drop_last() =~= before);
        assert(after.last() == t@[k as int]);
        let d = t[k];
        assert(is_digit(d));
        if !big {
            acc = acc * 10 + (d - 48) as u64;
            if acc > INDEX_MAX {
                big = true;
            }
        } else {
            assert(digits_value(after) >= digits_value(before));
        }
        k = k + 1;
    }
    if a < b && !big {
        Some(acc as i32)
    } else {
        None
    }
}


/// One corner of a face: the 1-based index of its vertex, and where written,
/// of its texture coordinate and of its normal.
#[derive(Clone, Copy, Debug, PartialEq, Eq, Structural)]
pub enum FaceVertex {
    Vertex(i32),
    VertexTexture(i32, i32),
    VertexTextureNormal(i32, i32, i32),
    VertexNormal(i32, i32),
}

/// The face corner written by the word `t`: `v`, `v/t`, `v//n` or `v/t/n`.
pub open spec fn face_vertex_of(t: Seq<u8>) -> Option<FaceVertex> {
    let a = run_end(t, 0, Run::Digits);
    match index_of(t, 0, a) {
        None => None,
        Some(i) => if a == t.len() {
            Some(FaceVertex::Vertex(i))
        } else if t[a] != 47 {
            None
        } else {
            let b = run_end(t, a + 1, Run::Digits);
            if b == t.len() {
                match index_of(t, a + 1, b) {
                    Some(j) => Some(FaceVertex::VertexTexture(i, j)),
                    None => None,
                }
            } else if t[b] != 47 {
                None
            } else {
                let c = run_end(t, b + 1, Run::Digits);
                if c != t.len() {
                    None
                } else {
                    match index_of(t, b + 1, c) {
                        None => None,
                        Some(n) => if b == a + 1 {
                            Some(FaceVertex::VertexNormal(i, n))
                        } else {
                            match index_of(t, a + 1, b) {
                                Some(j) => Some(FaceVertex::VertexTextureNormal(i, j, n)),
                                None => None,
                            }
                        },
                    }
                }
            }
        },
    }
}

/// Reads one face corner from the word `t`.
pub fn parse_face_vertex(t: &[u8]) -> (r: Option<FaceVertex>)
    ensures
        r == face_vertex_of(t@),
{
    let n = t.len();
    let a = scan(t, 0, Run::Digits);
    proof {
        lemma_run_end(t@, 0, Run::Digits);
    }
    let i = match parse_index(t, 0, a) {
        None => return None,
        Some(i) => i,
    };
    if a == n {
        return Some(FaceVertex::Vertex(i));
    }
    if t[a] != 47 {
        return None;
    }
    let b = scan(t, a + 1, Run::Digits);
    proof {
        lemma_run_end(t@, a + 1, Run::Digits);
    }
    if b == n {
        return match parse_index(t, a + 1, b) {
            Some(j) => Some(FaceVertex::VertexTexture(i, j)),
            None => None,
        };
    }
    if t[b] != 47 {
        return None;
    }
    let c = scan(t, b + 1, Run::Digits);
    proof {
        lemma_run_end(t@, b + 1, Run::Digits);
    }
    if c != n {
        return None;
    }
    let k = match parse_index(t, b + 1, c) {
        None => return None,
        Some(k) => k,
    };
    if b == a + 1 {
        Some(FaceVertex::VertexNormal(i, k))
    } else {
        match parse_index(t, a + 1, b) {
            Some(j) => Some(FaceVertex::VertexTextureNormal(i, j, k)),
            None => None,
        }
    }
}

/// A decimal number as the text writes it: an optional minus sign, the digits
/// before the point and the digits after it, each digit an ASCII byte.
#[derive(Clone, Debug)]
pub struct Decimal {
    pub negative: bool,
    pub whole: Vec<u8>,
    pub frac: Vec<u8>,
}

pub struct DecimalView {
    pub negative: bool,
    pub whole: Seq<u8>,
    pub frac: Seq<u8>,
}

impl View for Decimal {
    type V = DecimalView;

    open spec fn view(&self) -> DecimalView {
        DecimalView { negative: self.negative, whole: self.whole@, frac: self.frac@ }
    }
}

impl Decimal {
    /// A copy of this number.
    pub fn duplicate(&self) -> (r: Decimal)
        ensures
            r@ == self@,
    {
        Decimal {
            negative: self.negative,
            whole: slice_to_vec(self.whole.as_slice()),
            frac: slice_to_vec(self.frac.as_slice()),
        }
    }
}

/// The number written by the word `t`: `-`, then digits, then optionally a
/// point and more digits, with at least one digit in all.
pub open spec fn decimal_of(t: Seq<u8>) -> Option<DecimalView> {
    let s: int = if t.len() > 0 && t[0] == 45 {
        1
    } else {
        0
    };
    let a = run_end(t, s, Run::Digits);
    if a == t.len() {
        if a > s {
            Some(DecimalView { negative: s == 1, whole: t.subrange(s, a), frac: seq![] })
        } else {
            None
        }
    } else if t[a] != 46 {
        None
    } else {
        let b = run_end(t, a + 1, Run::Digits);
        if b != t.len() || (a == s && b == a + 1) {
            None
        } else {
            Some(DecimalView { negative: s == 1, whole: t.subrange(s, a), frac: t.subrange(a + 1, b) })
        }
    }
}

/// Reads a decimal number from the word `t`.
pub fn parse_decimal(t: &[u8]) -> (r: Option<Decimal>)
    ensures
        match r {
            Some(d) => decimal_of(t@) == Some(d@),
            None => decimal_of(t@) is None,
        },
{
    let n = t.len();
    let s: usize = if n > 0 && t[0] == 45 {
        1
    } else {
        0
    };
    let a = scan(t, s, Run::Digits);
    proof {
        lemma_run_end(t@, s as int, Run::Digits);
    }
    if a == n {
        if a > s {
            let whole = slice_to_vec(slice_subrange(t, s, a));
            let r = Decimal { negative: s == 1, whole, frac: Vec::new() };
            assert(r@.frac =~= seq![]);
            return Some(r);
        } else {
            return None;
        }
    }
    if t[a] != 46 {
        return None;
    }
    let b = scan(t, a + 1, Run::Digits);
    proof {
        lemma_run_end(t@, a + 1, Run::Digits);
    }
    if b != n || (a == s && b == a + 1) {
        return None;
    }
    let whole = slice_to_vec(slice_subrange(t, s, a));
    let frac = slice_to_vec(slice_subrange(t, a + 1, b));
    Some(Decimal { negative: s == 1, whole, frac })
}


/// One line of OBJ text.
#[derive(Clone, Debug)]
pub enum ObjLine {
    Comment(Vec<u8>),
    Vertex(Decimal, Decimal, Decimal),
    Texture(Decimal, Decimal, Decimal),
    VertexNormal(Decimal, Decimal, Decimal),
    VertexParameter(Decimal, Decimal, Decimal),
    Face(FaceVertex, FaceVertex, FaceVertex),
    Name(Vec<u8>),
    Material(Vec<u8>),
    UseMaterial(Vec<u8>),
    S(Vec<u8>),
    /// A line of a kind that the renderer does not read, from its keyword on.
    Other(Vec<u8>),
    Blankline,
}

pub enum ObjLineView {
    Comment(Seq<u8>),
    Vertex(DecimalView, DecimalView, DecimalView),
    Texture(DecimalView, DecimalView, DecimalView),
    VertexNormal(DecimalView, DecimalView, DecimalView),
    VertexParameter(DecimalView, DecimalView, DecimalView),
    Face(FaceVertex, FaceVertex, FaceVertex),
    Name(Seq<u8>),
    Material(Seq<u8>),
    UseMaterial(Seq<u8>),
    S(Seq<u8>),
    Other(Seq<u8>),
    Blankline,
}

impl View for ObjLine {
    type V = ObjLineView;

    open spec fn view(&self) -> ObjLineView {
        match self {
            ObjLine::Comment(t) => ObjLineView::Comment(t@),
            ObjLine::Vertex(x, y, z) => ObjLineView::Vertex(x@, y@, z@),
            ObjLine::Texture(x, y, z) => ObjLineView::Texture(x@, y@, z@),
            ObjLine::VertexNormal(x, y, z) => ObjLineView::VertexNormal(x@, y@, z@),
            ObjLine::VertexParameter(x, y, z) => ObjLineView::VertexParameter(x@, y@, z@),
            ObjLine::Face(a, b, c) => ObjLineView::Face(*a, *b, *c),
            ObjLine::Name(t) => ObjLineView::Name(t@),
            ObjLine::Material(t) => ObjLineView::Material(t@),
            ObjLine::UseMaterial(t) => ObjLineView::UseMaterial(t@),
            ObjLine::S(t) => ObjLineView::S(t@),
            ObjLine::Other(t) => ObjLineView::Other(t@),
            ObjLine::Blankline => ObjLineView::Blankline,
        }
    }
}

/// The keywords that open a line.
#[derive(Clone, Copy, PartialEq, Eq, Structural)]
pub enum Keyword {
    V,
    Vt,
    Vn,
    Vp,
    F,
    O,
    Mtllib,
    Usemtl,
    S,
    Unknown,
}

/// Whether the word `w` is the two letters `c0 c1`.
pub open spec fn is_word2(w: Seq<u8>, c0: u8, c1: u8) -> bool {
    w.len() == 2 && w[0] == c0 && w[1] == c1
}

/// Whether the word `w` is the six letters `c`.
pub open spec fn is_word6(w: Seq<u8>, c: (u8, u8, u8, u8, u8, u8)) -> bool {
    w.len() == 6 && w[0] == c.0 && w[1] == c.1 && w[2] == c.2 && w[3] == c.3 && w[4] == c.4
        && w[5] == c.5
}

/// The keyword spelt by the word `w` (in ASCII: v, vt, vn, vp, f, o, mtllib, usemtl, s).
pub open spec fn keyword_of(w: Seq<u8>) -> Keyword {
    if w.len() == 1 && w[0] == 118 {
        Keyword::V
    } else if is_word2(w, 118, 116) {
        Keyword::Vt
    } else if is_word2(w, 118, 110) {
        Keyword::Vn
    } else if is_word2(w, 118, 112) {
        Keyword::Vp
    } else if w.len() == 1 && w[0] == 102 {
        Keyword::F
    } else if w.len() == 1 && w[0] == 111 {
        Keyword::O
    } else if is_word6(w, (109, 116, 108, 108, 105, 98)) {
        Keyword::Mtllib
    } else if is_word6(w, (117, 115, 101, 109, 116, 108)) {
        Keyword::Usemtl
    } else if w.len() == 1 && w[0] == 115 {
        Keyword::S
    } else {
        Keyword::Unknown
    }
}

fn word2(w: &[u8], c0: u8, c1: u8) -> (r: bool)
    ensures
        r == is_word2(w@, c0, c1),
{
    w.len() == 2 && w[0] == c0 && w[1] == c1
}

fn word6(w: &[u8], c: (u8, u8, u8, u8, u8, u8)) -> (r: bool)
    ensures
        r == is_word6(w@, c),
{
    w.len() == 6 && w[0] == c.0 && w[1] == c.1 && w[2] == c.2 && w[3] == c.3 && w[4] == c.4
        && w[5] == c.5
}

/// Names the keyword that the word `w` spells.
pub fn keyword(w: &[u8]) -> (k: Keyword)
    ensures
        k == keyword_of(w@),
{
    if w.len() == 1 && w[0] == 118 {
        Keyword::V
    } else if word2(w, 118, 116) {
        Keyword::Vt
    } else if word2(w, 118, 110) {
        Keyword::Vn
    } else if word2(w, 118, 112) {
        Keyword::Vp
    } else if w.len() == 1 && w[0] == 102 {
        Keyword::F
    } else if w.len() == 1 && w[0] == 111 {
        Keyword::O
    } else if word6(w, (109, 116, 108, 108, 105, 98)) {
        Keyword::Mtllib
    } else if word6(w, (117, 115, 101, 109, 116, 108)) {
        Keyword::Usemtl
    } else if w.len() == 1 && w[0] == 115 {
        Keyword::S
    } else {
        Keyword::Unknown
    }
}

/// Exactly three words after position `p` of the line `l`.
pub open spec fn three_words(l: Seq<u8>, p: int) -> Option<(Seq<u8>, Seq<u8>, Seq<u8>)> {
    let a1 = run_end(l, p, Run::Blank);
    let b1 = run_end(l, a1, Run::Word);
    let a2 = run_end(l, b1, Run::Blank);
    let b2 = run_end(l, a2, Run::Word);
    let a3 = run_end(l, b2, Run::Blank);
    let b3 = run_end(l, a3, Run::Word);
    if a1 < b1 && a2 < b2 && a3 < b3 && run_end(l, b3, Run::Blank) == l.len() {
        Some((l.subrange(a1, b1), l.subrange(a2, b2), l.subrange(a3, b3)))
    } else {
        None
    }
}

/// Three decimal numbers, and nothing else, after position `p` of the line `l`.
pub open spec fn three_decimals(l: Seq<u8>, p: int) -> Option<(DecimalView, DecimalView, DecimalView)> {
    match three_words(l, p) {
        Some((x, y, z)) => match (decimal_of(x), decimal_of(y), decimal_of(z)) {
            (Some(dx), Some(dy), Some(dz)) => Some((dx, dy, dz)),
            _ => None,
        },
        None => None,
    }
}

/// Three face corners, and nothing else, after position `p` of the line `l`.
pub open spec fn three_corners(l: Seq<u8>, p: int) -> Option<(FaceVertex, FaceVertex, FaceVertex)> {
    match three_words(l, p) {
        Some((x, y, z)) => match (face_vertex_of(x), face_vertex_of(y), face_vertex_of(z)) {
            (Some(fx), Some(fy), Some(fz)) => Some((fx, fy, fz)),
            _ => None,
        },
        None => None,
    }
}

/// The record that the line `l` (without its line break) holds, if it is well formed.
#[verifier::opaque]
pub open spec fn record_of(l: Seq<u8>) -> Option<ObjLineView> {
    let a = run_end(l, 0, Run::Blank);
    if a == l.len() {
        Some(ObjLineView::Blankline)
    } else if l[a] == 35 {
        Some(ObjLineView::Comment(l.subrange(run_end(l, a + 1, Run::Blank), l.len() as int)))
    } else {
        let b = run_end(l, a, Run::Word);
        let rest = l.subrange(run_end(l, b, Run::Blank), l.len() as int);
        match keyword_of(l.subrange(a, b)) {
            Keyword::V => match three_decimals(l, b) {
                Some((x, y, z)) => Some(ObjLineView::Vertex(x, y, z)),
                None => None,
            },
            Keyword::Vt => match three_decimals(l, b) {
                Some((x, y, z)) => Some(ObjLineView::Texture(x, y, z)),
                None => None,
            },
            Keyword::Vn => match three_decimals(l, b) {
                Some((x, y, z)) => Some(ObjLineView::VertexNormal(x, y, z)),
                None => None,
            },
            Keyword::Vp => match three_decimals(l, b) {
                Some((x, y, z)) => Some(ObjLineView::VertexParameter(x, y, z)),
                None => None,
            },
            Keyword::F => match three_corners(l, b) {
                Some((x, y, z)) => Some(ObjLineView::Face(x, y, z)),
                None => None,
            },
            Keyword::O => Some(ObjLineView::Name(rest)),
            Keyword::Mtllib => Some(ObjLineView::Material(rest)),
            Keyword::Usemtl => Some(ObjLineView::UseMaterial(rest)),
            Keyword::S => Some(ObjLineView::S(rest)),
            Keyword::Unknown => Some(ObjLineView::Other(l.subrange(a, l.len() as int))),
        }
    }
}

/// Finds the three words after position `p` of `l`, if there are exactly three.
fn split_three(l: &[u8], p: usize) -> (r: Option<((usize, usize), (usize, usize), (usize, usize))>)
    requires
        p <= l@.len(),
    ensures
        match r {
            Some(((a1, b1), (a2, b2), (a3, b3))) => {
                &&& a1 <= b1 <= l@.len()
                &&& a2 <= b2 <= l@.len()
                &&& a3 <= b3 <= l@.len()
                &&& three_words(l@, p as int) == Some(
                    (
                        l@.subrange(a1 as int, b1 as int),
                        l@.subrange(a2 as int, b2 as int),
                        l@.subrange(a3 as int, b3 as int),
                    ),
                )
            },
            None => three_words(l@, p as int) is None,
        },
{
    let a1 = scan(l, p, Run::Blank);
    proof { lemma_run_end(l@, p as int, Run::Blank); }
    let b1 = scan(l, a1, Run::Word);
    proof { lemma_run_end(l@, a1 as int, Run::Word); }
    let a2 = scan(l, b1, Run::Blank);
    proof { lemma_run_end(l@, b1 as int, Run::Blank); }
    let b2 = scan(l, a2, Run::Word);
    proof { lemma_run_end(l@, a2 as int, Run::Word); }
    let a3 = scan(l, b2, Run::Blank);
    proof { lemma_run_end(l@, b2 as int, Run::Blank); }
    let b3 = scan(l, a3, Run::Word);
    proof { lemma_run_end(l@, a3 as int, Run::Word); }
    let e = scan(l, b3, Run::Blank);
    if a1 < b1 && a2 < b2 && a3 < b3 && e == l.len() {
        Some(((a1, b1), (a2, b2), (a3, b3)))
    } else {
        None
    }
}

/// Reads three decimal numbers, and nothing else, after position `p` of `l`.
fn parse_three_decimals(l: &[u8], p: usize) -> (r: Option<(Decimal, Decimal, Decimal)>)
    requires
        p <= l@.len(),
    ensures
        match r {
            Some((x, y, z)) => three_decimals(l@, p as int) == Some((x@, y@, z@)),
            None => three_decimals(l@, p as int) is None,
        },
{
    let ((a1, b1), (a2, b2), (a3, b3)) = match split_three(l, p) {
        Some(w) => w,
        None => return None,
    };
    let x = parse_decimal(slice_subrange(l, a1, b1));
    let y = parse_decimal(slice_subrange(l, a2, b2));
    let z = parse_decimal(slice_subrange(l, a3, b3));
    match (x, y, z) {
        (Some(x), Some(y), Some(z)) => Some((x, y, z)),
        _ => None,
    }
}

/// Reads three face corners, and nothing else, after position `p` of `l`.
fn parse_three_corners(l: &[u8], p: usize) -> (r: Option<(FaceVertex, FaceVertex, FaceVertex)>)
    requires
        p <= l@.len(),
    ensures
        r == three_corners(l@, p as int),
{
    let ((a1, b1), (a2, b2), (a3, b3)) = match split_three(l, p) {
        Some(w) => w,
        None => return None,
    };
    let x = parse_face_vertex(slice_subrange(l, a1, b1));
    let y = parse_face_vertex(slice_subrange(l, a2, b2));
    let z = parse_face_vertex(slice_subrange(l, a3, b3));
    match (x, y, z) {
        (Some(x), Some(y), Some(z)) => Some((x, y, z)),
        _ => None,
    }
}

/// Reads the record held by one line `l`, given without its line break.
pub fn parse_line(l: &[u8]) -> (r: Option<ObjLine>)
    ensures
        match r {
            Some(x) => record_of(l@) == Some(x@),
            None => record_of(l@) is None,
        },
{
    reveal(record_of);
    let n = l.len();
    let a = scan(l, 0, Run::Blank);
    proof { lemma_run_end(l@, 0, Run::Blank); }
    if a == n {
        return Some(ObjLine::Blankline);
    }
    if l[a] == 35 {
        let c = scan(l, a + 1, Run::Blank);
        proof { lemma_run_end(l@, a + 1, Run::Blank); }
        return Some(ObjLine::Comment(slice_to_vec(slice_subrange(l, c, n))));
    }
    let b = scan(l, a, Run::Word);
    proof { lemma_run_end(l@, a as int, Run::Word); }
    let c = scan(l, b, Run::Blank);
    proof { lemma_run_end(l@, b as int, Run::Blank); }
    let kw = keyword(slice_subrange(l, a, b));
    match kw {
        Keyword::V => match parse_three_decimals(l, b) {
            Some((x, y, z)) => Some(ObjLine::Vertex(x, y, z)),
            None => None,
        },
        Keyword::Vt => match parse_three_decimals(l, b) {
            Some((x, y, z)) => Some(ObjLine::Texture(x, y, z)),
            None => None,
        },
        Keyword::Vn => match parse_three_decimals(l, b) {
            Some((x, y, z)) => Some(ObjLine::VertexNormal(x, y, z)),
            None => None,
        },
        Keyword::Vp => match parse_three_decimals(l, b) {
            Some((x, y, z)) => Some(ObjLine::VertexParameter(x, y, z)),
            None => None,
        },
        Keyword::F => match parse_three_corners(l, b) {
            Some((x, y, z)) => Some(ObjLine::Face(x, y, z)),
            None => None,
        },
        Keyword::O => Some(ObjLine::Name(slice_to_vec(slice_subrange(l, c, n)))),
        Keyword::Mtllib => Some(ObjLine::Material(slice_to_vec(slice_subrange(l, c, n)))),
        Keyword::Usemtl => Some(ObjLine::UseMaterial(slice_to_vec(slice_subrange(l, c, n)))),
        Keyword::S => Some(ObjLine::S(slice_to_vec(slice_subrange(l, c, n)))),
        Keyword::Unknown => Some(ObjLine::Other(slice_to_vec(slice_subrange(l, a, n)))),
    }
}


/// The lines of the text `s`, split at each line feed; a text that ends with a
/// line feed ends with an empty line.
pub open spec fn split_lines(s: Seq<u8>) -> Seq<Seq<u8>>
    decreases s.len(),
{
    if s.len() == 0 {
        seq![seq![]]
    } else {
        let init = split_lines(s.drop_last());
        if s.last() == 10 {
            init.push(seq![])
        } else {
            init.update(init.len() - 1, init.last().push(s.last()))
        }
    }
}

pub proof fn lemma_split_lines_nonempty(s: Seq<u8>)
    ensures
        split_lines(s).len() >= 1,
    decreases s.len(),
{
    if s.len() > 0 {
        lemma_split_lines_nonempty(s.drop_last());
    }
}

/// The line `l` without a carriage return at its end.
pub open spec fn strip_cr(l: Seq<u8>) -> Seq<u8> {
    if l.len() > 0 && l.last() == 13 {
        l.drop_last()
    } else {
        l
    }
}

/// The record of the `i`-th line of the text `s`.
pub open spec fn line_record(s: Seq<u8>, i: int) -> Option<ObjLineView> {
    record_of(strip_cr(split_lines(s)[i]))
}

/// The lines of a text agree with those of each of its prefixes, but for the
/// prefix's last line, which may yet grow.
pub proof fn lemma_split_lines_prefix(s: Seq<u8>, m: int, n: int)
    requires
        0 <= m <= n <= s.len(),
    ensures
        split_lines(s.take(n)).len() >= split_lines(s.take(m)).len(),
        forall|i: int|
            0 <= i < split_lines(s.take(m)).len() - 1 ==> #[trigger] split_lines(s.take(n))[i]
                == split_lines(s.take(m))[i],
    decreases n - m,
{
    if n > m {
        lemma_split_lines_prefix(s, m, n - 1);
        assert(s.take(n).drop_last() =~= s.take(n - 1));
        lemma_split_lines_nonempty(s.take(n - 1));
    }
}

/// A line feed at `k` closes the line that began at `start`; the lines of the
/// whole text agree with those closed so far.
proof fn lemma_line_closed(s: Seq<u8>, k: int, start: int, done: Seq<Seq<u8>>)
    requires
        0 <= start <= k < s.len(),
        s[k] == 10,
        split_lines(s.take(k)) == done.push(s.subrange(start, k)),
    ensures
        split_lines(s.take(k + 1)) == done.push(s.subrange(start, k)).push(seq![]),
        split_lines(s).len() >= done.len() + 2,
        forall|i: int|
            0 <= i <= done.len() ==> #[trigger] split_lines(s)[i] == done.push(
                s.subrange(start, k),
            )[i],
{
    assert(s.take(k + 1).drop_last() =~= s.take(k));
    lemma_split_lines_prefix(s, k + 1, s.len() as int);
    assert(s.take(s.len() as int) =~= s);
}

/// Reads the record of the line `s[start..end]`, less a carriage return at its end.
fn parse_span(s: &[u8], start: usize, end: usize) -> (r: Option<ObjLine>)
    requires
        start <= end <= s@.len(),
    ensures
        match r {
            Some(x) => record_of(strip_cr(s@.subrange(start as int, end as int))) == Some(x@),
            None => record_of(strip_cr(s@.subrange(start as int, end as int))) is None,
        },
{
    let e: usize = if end > start && s[end - 1] == 13 {
        end - 1
    } else {
        end
    };
    let line = slice_subrange(s, start, e);
    assert(line@ =~= strip_cr(s@.subrange(start as int, end as int)));
    parse_line(line)
}

/// An empty line is a blank record.
proof fn lemma_empty_line_is_blank()
    ensures
        record_of(seq![]) == Some(ObjLineView::Blankline),
{
    reveal(record_of);
}

/// A malformed line: its number, counted from 1.
#[derive(Clone, Copy, Debug, PartialEq, Eq, Structural)]
pub struct ObjError {
    pub line: usize,
}

/// Reads OBJ text into one record per line, or reports the first line that is
/// malformed.
pub fn obj_parser(src: &str) -> (r: Result<Vec<ObjLine>, ObjError>)
    ensures
        match r {
            Ok(v) => {
                &&& v@.len() == split_lines(src.spec_bytes()).len()
                &&& forall|i: int|
                    0 <= i < v@.len() ==> line_record(src.spec_bytes(), i) == Some(
                        #[trigger] v@[i]@,
                    )
            },
            Err(e) => {
                &&& 1 <= e.line <= split_lines(src.spec_bytes()).len()
                &&& line_record(src.spec_bytes(), e.line - 1) is None
                &&& forall|i: int|
                    0 <= i < e.line - 1 ==> #[trigger] line_record(src.spec_bytes(), i) is Some
            },
        },
{
    let s = src.as_bytes();
    let n = s.len();
    let mut out: Vec<ObjLine> = Vec::new();
    let ghost mut done: Seq<Seq<u8>> = seq![];
    let mut start: usize = 0;
    let mut k: usize = 0;
    assert(s@.take(0) =~= seq![]);
    assert(split_lines(seq![]) == seq![Seq::<u8>::empty()]);
    assert(split_lines(s@.take(0)) =~= done.push(s@.subrange(0, 0)));
    while k < n
        invariant
            n == s@.len(),
            s@ == src.spec_bytes(),
            done.len() <= start <= k <= n,
            split_lines(s@.take(k as int)) == done.push(s@.subrange(start as int, k as int)),
            out@.len() == done.len(),
            forall|i: int| 0 <= i < done.len() ==> #[trigger] split_lines(s@)[i] == done[i],
            forall|i: int|
                #![trigger line_record(s@, i)]
                #![trigger out@[i]]
                0 <= i < out@.len() ==> line_record(s@, i) == Some(out@[i]@),
        decreases n - k,
    {
        let ghost cur = s@.subrange(start as int, k as int);
        if s[k] == 10 {
            proof {
                lemma_line_closed(s@, k as int, start as int, done);
            }
            match parse_span(s, start, k) {
                Some(rec) => out.push(rec),
                None => {
                    return Err(ObjError { line: out.len() + 1 });
                },
            }
            proof {
                done = done.push(cur);
            }
            start = k + 1;
            assert(s@.subrange(start as int, k as int + 1) =~= seq![]);
        } else {
            assert(s@.take(k as int + 1).drop_last() =~= s@.take(k as int));
            assert(s@.subrange(start as int, k as int + 1) =~= cur.push(s@[k as int]));
        }
        k = k + 1;
    }
    assert(s@.take(n as int) =~= s@);
    assert(split_lines(s@)[done.len() as int] == s@.subrange(start as int, n as int));
    match parse_span(s, start, n) {
        Some(rec) => out.push(rec),
        None => {
            proof {
                if start == n {
                    lemma_empty_line_is_blank();
                    assert(strip_cr(s@.subrange(start as int, n as int)) =~= seq![]);
                }
            }
            return Err(ObjError { line: out.len() + 1 });
        },
    }
    Ok(out)
}

} // verus!
