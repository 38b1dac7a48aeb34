//! The parsed form of an AFM file, its mathematical model, and lookups on it.
use vstd::prelude::*;
use vstd::string::StringExecFns;
use crate::number::is_float_literal;

verus! {

/// A number exactly as the file wrote it; `text` is one that
/// `f64::from_str` accepts (see [`crate::number::is_float_literal`]).
#[derive(Debug, Clone)]
pub struct Number {
    pub text: String,
}

impl View for Number {
    type V = Seq<char>;

    open spec fn view(&self) -> Seq<char> {
        self.text@
    }
}

impl Number {
    /// The number's text, ready for `str::parse::<f64>`.
    pub fn as_str(&self) -> (s: &str)
        ensures
            s@ == self@,
    {
        self.text.as_str()
    }
}

/// The font's bounding box from a `FontBBox` line.
#[derive(Debug, Clone)]
pub struct BoundingBox {
    pub llx: Number,
    pub lly: Number,
    pub urx: Number,
    pub ury: Number,
}

impl View for BoundingBox {
    type V = (Seq<char>, Seq<char>, Seq<char>, Seq<char>);

    open spec fn view(&self) -> Self::V {
        (self.llx@, self.lly@, self.urx@, self.ury@)
    }
}

/// An `L successor ligature` field of a char metrics line.
#[derive(Debug, Clone)]
pub struct Ligature {
    pub successor: String,
    pub ligature: String,
}

impl View for Ligature {
    type V = (Seq<char>, Seq<char>);

    open spec fn view(&self) -> Self::V {
        (self.successor@, self.ligature@)
    }
}

/// A `PCC name x y` field: one part of a composite glyph and its offset.
#[derive(Debug, Clone)]
pub struct CompositePart {
    pub name: String,
    pub x: Number,
    pub y: Number,
}

impl View for CompositePart {
    type V = (Seq<char>, Seq<char>, Seq<char>);

    open spec fn view(&self) -> Self::V {
        (self.name@, self.x@, self.y@)
    }
}

/// A single glyph's character code, advance width, and PostScript name,
/// with its ligatures and composite parts.
#[derive(Debug, Clone)]
pub struct GlyphMetric {
    pub code: i32,
    pub width: Number,
    pub name: String,
    pub ligatures: Vec<Ligature>,
    pub composite_parts: Vec<CompositePart>,
}

/// The model of a [`GlyphMetric`].
pub struct GlyphModel {
    pub code: i32,
    pub width: Seq<char>,
    pub name: Seq<char>,
    pub ligatures: Seq<(Seq<char>, Seq<char>)>,
    pub parts: Seq<(Seq<char>, Seq<char>, Seq<char>)>,
}

impl View for GlyphMetric {
    type V = GlyphModel;

    open spec fn view(&self) -> GlyphModel {
        GlyphModel {
            code: self.code,
            width: self.width@,
            name: self.name@,
            ligatures: self.ligatures@.map_values(|l: Ligature| l@),
            parts: self.composite_parts@.map_values(|p: CompositePart| p@),
        }
    }
}

/// A single horizontal kerning adjustment between two glyphs, as found in a
/// `KPX` line within a `StartKernPairs` / `EndKernPairs` block.
#[derive(Debug, Clone)]
pub struct KernPair {
    pub first: String,
    pub second: String,
    pub adjustment: Number,
}

impl View for KernPair {
    type V = (Seq<char>, Seq<char>, Seq<char>);

    open spec fn view(&self) -> Self::V {
        (self.first@, self.second@, self.adjustment@)
    }
}

/// A parsed AFM file's font-level metadata and per-glyph metrics.
#[derive(Debug, Clone)]
pub struct FontMetrics {
    pub font_name: Option<String>,
    pub full_name: Option<String>,
    pub family_name: Option<String>,
    pub weight: Option<String>,
    pub version: Option<String>,
    pub notice: Option<String>,
    pub encoding_scheme: Option<String>,
    pub italic_angle: Option<Number>,
    pub is_fixed_pitch: Option<bool>,
    pub font_bbox: Option<BoundingBox>,
    pub underline_position: Option<Number>,
    pub underline_thickness: Option<Number>,
    pub cap_height: Option<Number>,
    pub x_height: Option<Number>,
    pub ascender: Option<Number>,
    pub descender: Option<Number>,
    pub std_hw: Option<Number>,
    pub std_vw: Option<Number>,
    pub glyphs: Vec<GlyphMetric>,
    pub kern_pairs: Vec<KernPair>,
}

/// The model of [`FontMetrics`]: every text as its characters.
pub struct MetricsModel {
    pub font_name: Option<Seq<char>>,
    pub full_name: Option<Seq<char>>,
    pub family_name: Option<Seq<char>>,
    pub weight: Option<Seq<char>>,
    pub version: Option<Seq<char>>,
    pub notice: Option<Seq<char>>,
    pub encoding_scheme: Option<Seq<char>>,
    pub italic_angle: Option<Seq<char>>,
    pub is_fixed_pitch: Option<bool>,
    pub font_bbox: Option<(Seq<char>, Seq<char>, Seq<char>, Seq<char>)>,
    pub underline_position: Option<Seq<char>>,
    pub underline_thickness: Option<Seq<char>>,
    pub cap_height: Option<Seq<char>>,
    pub x_height: Option<Seq<char>>,
    pub ascender: Option<Seq<char>>,
    pub descender: Option<Seq<char>>,
    pub std_hw: Option<Seq<char>>,
    pub std_vw: Option<Seq<char>>,
    pub glyphs: Seq<GlyphModel>,
    pub kern_pairs: Seq<(Seq<char>, Seq<char>, Seq<char>)>,
}

/// The model of an optional text.
pub open spec fn text_opt(o: Option<String>) -> Option<Seq<char>> {
    match o {
        Some(s) => Some(s@),
        None => None,
    }
}

/// The model of an optional number.
pub open spec fn number_opt(o: Option<Number>) -> Option<Seq<char>> {
    match o {
        Some(n) => Some(n@),
        None => None,
    }
}

/// The model of an optional bounding box.
pub open spec fn bbox_opt(o: Option<BoundingBox>) -> Option<
    (Seq<char>, Seq<char>, Seq<char>, Seq<char>),
> {
    match o {
        Some(b) => Some(b@),
        None => None,
    }
}

impl View for FontMetrics {
    type V = MetricsModel;

    open spec fn view(&self) -> MetricsModel {
        MetricsModel {
            font_name: text_opt(self.font_name),
            full_name: text_opt(self.full_name),
            family_name: text_opt(self.family_name),
            weight: text_opt(self.weight),
            version: text_opt(self.version),
            notice: text_opt(self.notice),
            encoding_scheme: text_opt(self.encoding_scheme),
            italic_angle: number_opt(self.italic_angle),
            is_fixed_pitch: self.is_fixed_pitch,
            font_bbox: bbox_opt(self.font_bbox),
            underline_position: number_opt(self.underline_position),
            underline_thickness: number_opt(self.underline_thickness),
            cap_height: number_opt(self.cap_height),
            x_height: number_opt(self.x_height),
            ascender: number_opt(self.ascender),
            descender: number_opt(self.descender),
            std_hw: number_opt(self.std_hw),
            std_vw: number_opt(self.std_vw),
            glyphs: self.glyphs@.map_values(|g: GlyphMetric| g@),
            kern_pairs: self.kern_pairs@.map_values(|k: KernPair| k@),
        }
    }
}

/// An optional number, present only as text `f64::from_str` accepts.
pub open spec fn number_ok(o: Option<Seq<char>>) -> bool {
    o matches Some(v) ==> is_float_literal(v)
}

/// A glyph whose numbers `f64::from_str` accepts and whose names are not
/// empty.
pub open spec fn glyph_ok(g: GlyphModel) -> bool {
    &&& is_float_literal(g.width)
    &&& g.name.len() > 0
    &&& forall|i: int|
        0 <= i < g.ligatures.len() ==> (#[trigger] g.ligatures[i]).0.len() > 0
            && g.ligatures[i].1.len() > 0
    &&& forall|i: int|
        0 <= i < g.parts.len() ==> (#[trigger] g.parts[i]).0.len() > 0 && is_float_literal(
            g.parts[i].1,
        ) && is_float_literal(g.parts[i].2)
}

/// A kerning pair with non-empty glyph names and an adjustment that
/// `f64::from_str` accepts.
pub open spec fn kern_ok(k: (Seq<char>, Seq<char>, Seq<char>)) -> bool {
    k.0.len() > 0 && k.1.len() > 0 && is_float_literal(k.2)
}

/// Every number in `m` is one that `f64::from_str` accepts, and every
/// glyph name in it is non-empty.
pub open spec fn metrics_ok(m: MetricsModel) -> bool {
    &&& number_ok(m.italic_angle)
    &&& number_ok(m.underline_position)
    &&& number_ok(m.underline_thickness)
    &&& number_ok(m.cap_height)
    &&& number_ok(m.x_height)
    &&& number_ok(m.ascender)
    &&& number_ok(m.descender)
    &&& number_ok(m.std_hw)
    &&& number_ok(m.std_vw)
    &&& (m.font_bbox matches Some(b) ==> is_float_literal(b.0) && is_float_literal(b.1)
        && is_float_literal(b.2) && is_float_literal(b.3))
    &&& forall|i: int| 0 <= i < m.glyphs.len() ==> glyph_ok(#[trigger] m.glyphs[i])
    &&& forall|i: int| 0 <= i < m.kern_pairs.len() ==> kern_ok(#[trigger] m.kern_pairs[i])
}

impl FontMetrics {
    /// The well-formedness of parsed metrics: see [`metrics_ok`].
    pub open spec fn wf(&self) -> bool {
        metrics_ok(self@)
    }
}

/// The metrics of a file with nothing in it yet.
pub open spec fn empty_metrics() -> MetricsModel {
    MetricsModel {
        font_name: None,
        full_name: None,
        family_name: None,
        weight: None,
        version: None,
        notice: None,
        encoding_scheme: None,
        italic_angle: None,
        is_fixed_pitch: None,
        font_bbox: None,
        underline_position: None,
        underline_thickness: None,
        cap_height: None,
        x_height: None,
        ascender: None,
        descender: None,
        std_hw: None,
        std_vw: None,
        glyphs: Seq::empty(),
        kern_pairs: Seq::empty(),
    }
}

/// Index of the first glyph at or after `i` whose name is `name`, or the
/// number of glyphs when there is none.
pub open spec fn index_named_from(gs: Seq<GlyphMetric>, name: Seq<char>, i: int) -> int
    decreases gs.len() - i,
{
    if i >= gs.len() {
        gs.len() as int
    } else if gs[i].name@ == name {
        i
    } else {
        index_named_from(gs, name, i + 1)
    }
}

/// Index of the first glyph at or after `i` whose code is `code`, or the
/// number of glyphs when there is none.
pub open spec fn index_coded_from(gs: Seq<GlyphMetric>, code: i32, i: int) -> int
    decreases gs.len() - i,
{
    if i >= gs.len() {
        gs.len() as int
    } else if gs[i].code == code {
        i
    } else {
        index_coded_from(gs, code, i + 1)
    }
}

/// Index of the first kerning pair at or after `i` between `first` and
/// `second`, or the number of pairs when there is none.
pub open spec fn index_kern_from(ks: Seq<KernPair>, first: Seq<char>, second: Seq<char>, i: int) -> int
    decreases ks.len() - i,
{
    if i >= ks.len() {
        ks.len() as int
    } else if ks[i].first@ == first && ks[i].second@ == second {
        i
    } else {
        index_kern_from(ks, first, second, i + 1)
    }
}

/// The name search stops at the first glyph of that name.
pub proof fn lemma_index_named_from(gs: Seq<GlyphMetric>, name: Seq<char>, i: int)
    requires
        0 <= i <= gs.len(),
    ensures
        i <= index_named_from(gs, name, i) <= gs.len(),
        index_named_from(gs, name, i) < gs.len() ==> gs[index_named_from(gs, name, i)].name@
            == name,
        forall|j: int| i <= j < index_named_from(gs, name, i) ==> (#[trigger] gs[j]).name@ != name,
    decreases gs.len() - i,
{
    if i < gs.len() && gs[i].name@ != name {
        lemma_index_named_from(gs, name, i + 1);
    }
}

/// The code search stops at the first glyph with that code.
pub proof fn lemma_index_coded_from(gs: Seq<GlyphMetric>, code: i32, i: int)
    requires
        0 <= i <= gs.len(),
    ensures
        i <= index_coded_from(gs, code, i) <= gs.len(),
        index_coded_from(gs, code, i) < gs.len() ==> gs[index_coded_from(gs, code, i)].code == code,
        forall|j: int| i <= j < index_coded_from(gs, code, i) ==> (#[trigger] gs[j]).code != code,
    decreases gs.len() - i,
{
    if i < gs.len() && gs[i].code != code {
        lemma_index_coded_from(gs, code, i + 1);
    }
}

/// The pair search stops at the first pair of those glyphs.
pub proof fn lemma_index_kern_from(ks: Seq<KernPair>, first: Seq<char>, second: Seq<char>, i: int)
    requires
        0 <= i <= ks.len(),
    ensures
        i <= index_kern_from(ks, first, second, i) <= ks.len(),
        index_kern_from(ks, first, second, i) < ks.len() ==> ks[index_kern_from(
            ks,
            first,
            second,
            i,
        )].first@ == first && ks[index_kern_from(ks, first, second, i)].second@ == second,
        forall|j: int|
            i <= j < index_kern_from(ks, first, second, i) ==> !((#[trigger] ks[j]).first@ == first
                && ks[j].second@ == second),
    decreases ks.len() - i,
{
    if i < ks.len() && !(ks[i].first@ == first && ks[i].second@ == second) {
        lemma_index_kern_from(ks, first, second, i + 1);
    }
}

impl FontMetrics {
    /// Look up a glyph by its PostScript name (e.g. "space", "A"): the
    /// first glyph of that name.
    pub fn glyph_named(&self, name: &str) -> (r: Option<&GlyphMetric>)
        ensures
            ({
                let k = index_named_from(self.glyphs@, name@, 0);
                r == if k < self.glyphs@.len() {
                    Some(&self.glyphs@[k])
                } else {
                    None
                }
            }),
            r matches Some(g) ==> g.name@ == name@,
            r is None <==> forall|i: int|
                0 <= i < self.glyphs@.len() ==> (#[trigger] self.glyphs@[i]).name@ != name@,
    {
        proof {
            lemma_index_named_from(self.glyphs@, name@, 0);
        }
        let wanted = String::from_str(name);
        let mut i: usize = 0;
        while i < self.glyphs.len()
            invariant
                i <= self.glyphs@.len(),
                wanted@ == name@,
                index_named_from(self.glyphs@, name@, i as int) == index_named_from(
                    self.glyphs@,
                    name@,
                    0,
                ),
            decreases self.glyphs@.len() - i,
        {
            if self.glyphs[i].name == wanted {
                return Some(&self.glyphs[i]);
            }
            i = i + 1;
        }
        None
    }

    /// Look up a glyph by its character code: the first glyph with it.
    pub fn glyph_by_code(&self, code: i32) -> (r: Option<&GlyphMetric>)
        ensures
            ({
                let k = index_coded_from(self.glyphs@, code, 0);
                r == if k < self.glyphs@.len() {
                    Some(&self.glyphs@[k])
                } else {
                    None
                }
            }),
            r matches Some(g) ==> g.code == code,
            r is None <==> forall|i: int|
                0 <= i < self.glyphs@.len() ==> (#[trigger] self.glyphs@[i]).code != code,
    {
        proof {
            lemma_index_coded_from(self.glyphs@, code, 0);
        }
        let mut i: usize = 0;
        while i < self.glyphs.len()
            invariant
                i <= self.glyphs@.len(),
                index_coded_from(self.glyphs@, code, i as int) == index_coded_from(
                    self.glyphs@,
                    code,
                    0,
                ),
            decreases self.glyphs@.len() - i,
        {
            if self.glyphs[i].code == code {
                return Some(&self.glyphs[i]);
            }
            i = i + 1;
        }
        None
    }

    /// The horizontal kerning adjustment between two glyph names, if the
    /// pair appears in the file's `StartKernPairs` block: that of the first
    /// such pair.
    pub fn kerning_between(&self, first: &str, second: &str) -> (r: Option<&Number>)
        ensures
            ({
                let k = index_kern_from(self.kern_pairs@, first@, second@, 0);
                r == if k < self.kern_pairs@.len() {
                    Some(&self.kern_pairs@[k].adjustment)
                } else {
                    None
                }
            }),
            r is None <==> forall|i: int|
                0 <= i < self.kern_pairs@.len() ==> !((#[trigger] self.kern_pairs@[i]).first@
                    == first@ && self.kern_pairs@[i].second@ == second@),
    {
        proof {
            lemma_index_kern_from(self.kern_pairs@, first@, second@, 0);
        }
        let a = String::from_str(first);
        let b = String::from_str(second);
        let mut i: usize = 0;
        while i < self.kern_pairs.len()
            invariant
                i <= self.kern_pairs@.len(),
                a@ == first@,
                b@ == second@,
                index_kern_from(self.kern_pairs@, first@, second@, i as int) == index_kern_from(
                    self.kern_pairs@,
                    first@,
                    second@,
                    0,
                ),
            decreases self.kern_pairs@.len() - i,
        {
            if self.kern_pairs[i].first == a && self.kern_pairs[i].second == b {
                return Some(&self.kern_pairs[i].adjustment);
            }
            i = i + 1;
        }
        None
    }
}

/// An error produced while parsing an AFM file, located to a line and
/// column so a caller can point a user at the exact spot that's wrong
/// instead of just saying the file failed to parse.
#[derive(Debug, Clone)]
pub struct ParseError {
    pub line: usize,
    pub column: usize,
    pub message: String,
}

/// The model of a [`ParseError`].
pub struct ErrorModel {
    pub line: int,
    pub column: int,
    pub message: Seq<char>,
}

impl View for ParseError {
    type V = ErrorModel;

    open spec fn view(&self) -> ErrorModel {
        ErrorModel { line: self.line as int, column: self.column as int, message: self.message@ }
    }
}

impl ParseError {
    /// An error at `line` and `column` saying `message`.
    pub fn new(line: usize, column: usize, message: String) -> (e: Self)
        ensures
            e.line == line,
            e.column == column,
            e.message@ == message@,
    {
        ParseError { line, column, message }
    }
}

impl Default for FontMetrics {
    /// The metrics of a file that names nothing: every header field unset,
    /// no glyphs and no kerning pairs.
    fn default() -> (m: FontMetrics)
        ensures
            m@ == empty_metrics(),
    {
        let m = FontMetrics {
            font_name: None,
            full_name: None,
            family_name: None,
            weight: None,
            version: None,
            notice: None,
            encoding_scheme: None,
            italic_angle: None,
            is_fixed_pitch: None,
            font_bbox: None,
            underline_position: None,
            underline_thickness: None,
            cap_height: None,
            x_height: None,
            ascender: None,
            descender: None,
            std_hw: None,
            std_vw: None,
            glyphs: Vec::new(),
            kern_pairs: Vec::new(),
        };
        assert(m@.glyphs =~= Seq::<GlyphModel>::empty());
        assert(m@.kern_pairs =~= Seq::<(Seq<char>, Seq<char>, Seq<char>)>::empty());
        m
    }
}

} // verus!
