use vstd::prelude::*;

verus! {

/// Identifier of a layer; unique among the layers of a well-formed document.
pub type LayerId = u64;

pub const DEFAULT_LAYER_ID: u64 = 1;

/// A coordinate, length or angle of the drawing, carried as the bit pattern of an
/// IEEE-754 single-precision number. The library moves these values around and
/// compares them; arithmetic on them happens outside it.
#[derive(Debug, Clone, Copy, PartialEq, Eq)]
pub struct Scalar {
    pub bits: u32,
}

pub open spec fn bits_is_nan(bits: u32) -> bool {
    (bits & 0x7f80_0000u32) == 0x7f80_0000u32 && (bits & 0x007f_ffffu32) != 0
}

pub open spec fn bits_is_zero(bits: u32) -> bool {
    (bits & 0x7fff_ffffu32) == 0
}

/// Floating-point equality of two scalars: NaN equals nothing and the two zeros are equal.
pub open spec fn scalar_eq(a: Scalar, b: Scalar) -> bool {
    !bits_is_nan(a.bits) && !bits_is_nan(b.bits) && (a.bits == b.bits || (bits_is_zero(a.bits)
        && bits_is_zero(b.bits)))
}

impl Scalar {
    pub fn from_bits(bits: u32) -> (r: Self)
        ensures
            r.bits == bits,
    {
        Scalar { bits }
    }

    /// Positive zero.
    pub fn zero() -> (r: Self)
        ensures
            r.bits == 0,
    {
        Scalar { bits: 0 }
    }

    pub fn is_nan(self) -> (r: bool)
        ensures
            r == bits_is_nan(self.bits),
    {
        (self.bits & 0x7f80_0000u32) == 0x7f80_0000u32 && (self.bits & 0x007f_ffffu32) != 0
    }

    /// `==` of the floating-point values the two bit patterns stand for.
    pub fn same_value(self, other: Scalar) -> (r: bool)
        ensures
            r == scalar_eq(self, other),
    {
        !self.is_nan() && !other.is_nan() && (self.bits == other.bits || ((self.bits
            & 0x7fff_ffffu32) == 0 && (other.bits & 0x7fff_ffffu32) == 0))
    }
}

} // verus!

verus! {

pub const DEFAULT_GRID_SPACING_BITS: u32 = 0x4240_0000u32;

pub const DEFAULT_CANVAS_WIDTH_BITS: u32 = 0x44c8_0000u32;

pub const DEFAULT_CANVAS_HEIGHT_BITS: u32 = 0x4461_0000u32;

#[derive(Debug, Clone, Copy, PartialEq, Eq, Structural)]
pub enum GuideAxis {
    Horizontal,
    Vertical,
}

impl GuideAxis {
    pub open spec fn spec_label(self) -> Seq<char> {
        match self {
            GuideAxis::Horizontal => "横"@,
            GuideAxis::Vertical => "縦"@,
        }
    }

    pub fn label(self) -> (r: &'static str)
        ensures
            r@ == self.spec_label(),
    {
        match self {
            GuideAxis::Horizontal => "横",
            GuideAxis::Vertical => "縦",
        }
    }
}

#[derive(Debug, Clone, Copy, PartialEq, Eq)]
pub struct GuideLine {
    pub axis: GuideAxis,
    pub position: Scalar,
}

impl GuideLine {
    pub fn new(axis: GuideAxis, position: Scalar) -> (r: Self)
        ensures
            r.axis == axis,
            r.position == position,
    {
        GuideLine { axis, position }
    }
}

#[derive(Debug, Clone, Copy, PartialEq, Eq)]
pub struct GridSettings {
    pub visible: bool,
    pub snap_enabled: bool,
    pub spacing: Scalar,
}

impl GridSettings {
    pub open spec fn default_spec() -> GridSettings {
        GridSettings {
            visible: true,
            snap_enabled: false,
            spacing: Scalar { bits: DEFAULT_GRID_SPACING_BITS },
        }
    }
}

impl Default for GridSettings {
    fn default() -> (r: Self)
        ensures
            r == GridSettings::default_spec(),
    {
        GridSettings {
            visible: true,
            snap_enabled: false,
            spacing: Scalar { bits: DEFAULT_GRID_SPACING_BITS },
        }
    }
}

#[derive(Debug, Clone, PartialEq)]
pub struct GuideSettings {
    pub visible: bool,
    pub snap_enabled: bool,
    pub lines: Vec<GuideLine>,
}

pub struct GuideSettingsView {
    pub visible: bool,
    pub snap_enabled: bool,
    pub lines: Seq<GuideLine>,
}

impl View for GuideSettings {
    type V = GuideSettingsView;

    open spec fn view(&self) -> GuideSettingsView {
        GuideSettingsView {
            visible: self.visible,
            snap_enabled: self.snap_enabled,
            lines: self.lines@,
        }
    }
}

impl GuideSettings {
    pub open spec fn default_view() -> GuideSettingsView {
        GuideSettingsView { visible: true, snap_enabled: true, lines: Seq::empty() }
    }

    /// A copy with the same view.
    pub fn deep_copy(&self) -> (r: Self)
        ensures
            r@ == self@,
    {
        let mut lines: Vec<GuideLine> = Vec::new();
        let mut i: usize = 0;
        while i < self.lines.len()
            invariant
                i <= self.lines.len(),
                lines@ == self.lines@.subrange(0, i as int),
            decreases self.lines.len() - i,
        {
            lines.push(self.lines[i]);
            i += 1;
            assert(lines@ =~= self.lines@.subrange(0, i as int));
        }
        assert(lines@ =~= self.lines@);
        GuideSettings { visible: self.visible, snap_enabled: self.snap_enabled, lines }
    }
}

impl Default for GuideSettings {
    fn default() -> (r: Self)
        ensures
            r@ == GuideSettings::default_view(),
    {
        let r = GuideSettings { visible: true, snap_enabled: true, lines: Vec::new() };
        assert(r@.lines =~= Seq::<GuideLine>::empty());
        r
    }
}

#[derive(Debug, Clone, Copy, PartialEq, Eq, Structural)]
pub struct SmartGuideSettings {
    pub visible: bool,
}

impl Default for SmartGuideSettings {
    fn default() -> (r: Self)
        ensures
            r.visible,
    {
        SmartGuideSettings { visible: true }
    }
}

#[derive(Debug, Clone, Copy, PartialEq, Eq, Structural)]
pub struct RulerSettings {
    pub visible: bool,
}

impl Default for RulerSettings {
    fn default() -> (r: Self)
        ensures
            r.visible,
    {
        RulerSettings { visible: true }
    }
}

#[derive(Debug, Clone, Copy, PartialEq, Eq)]
pub struct CanvasSize {
    pub width: Scalar,
    pub height: Scalar,
}

impl CanvasSize {
    pub fn new(width: Scalar, height: Scalar) -> (r: Self)
        ensures
            r.width == width,
            r.height == height,
    {
        CanvasSize { width, height }
    }

    pub open spec fn default_spec() -> CanvasSize {
        CanvasSize {
            width: Scalar { bits: DEFAULT_CANVAS_WIDTH_BITS },
            height: Scalar { bits: DEFAULT_CANVAS_HEIGHT_BITS },
        }
    }
}

impl Default for CanvasSize {
    /// 1600 × 900.
    fn default() -> (r: Self)
        ensures
            r == CanvasSize::default_spec(),
    {
        CanvasSize {
            width: Scalar { bits: DEFAULT_CANVAS_WIDTH_BITS },
            height: Scalar { bits: DEFAULT_CANVAS_HEIGHT_BITS },
        }
    }
}

#[derive(Debug, Clone, Copy, PartialEq, Eq, Hash, Structural)]
pub struct RgbaColor {
    pub r: u8,
    pub g: u8,
    pub b: u8,
    pub a: u8,
}

/// `a` scaled by `percent` / 100, rounded to the nearest integer.
pub open spec fn scaled_alpha(a: u8, percent: int) -> int {
    (a * percent + 50) / 100
}

impl RgbaColor {
    pub fn new(r: u8, g: u8, b: u8, a: u8) -> (c: Self)
        ensures
            c == (RgbaColor { r, g, b, a }),
    {
        RgbaColor { r, g, b, a }
    }

    pub fn from_rgba(r: u8, g: u8, b: u8, a: u8) -> (c: Self)
        ensures
            c == (RgbaColor { r, g, b, a }),
    {
        RgbaColor::new(r, g, b, a)
    }

    pub fn white() -> (c: Self)
        ensures
            c == (RgbaColor { r: 255, g: 255, b: 255, a: 255 }),
    {
        RgbaColor::new(255, 255, 255, 255)
    }

    pub fn charcoal() -> (c: Self)
        ensures
            c == (RgbaColor { r: 37, g: 37, b: 41, a: 255 }),
    {
        RgbaColor::new(37, 37, 41, 255)
    }

    /// The same color with its alpha multiplied by `percent` / 100 and rounded.
    pub fn with_alpha_percent(self, percent: u8) -> (c: Self)
        requires
            percent <= 100,
        ensures
            c == (RgbaColor { a: scaled_alpha(self.a, percent as int) as u8, ..self }),
    {
        assert(self.a * percent <= 255 * 100) by (nonlinear_arith)
            requires
                self.a <= 255,
                percent <= 100,
        ;
        assert((self.a * percent + 50) / 100 <= 255);
        let scaled = ((self.a as u32) * (percent as u32) + 50) / 100;
        RgbaColor { a: scaled as u8, ..self }
    }
}

impl Default for RgbaColor {
    fn default() -> (c: Self)
        ensures
            c == (RgbaColor { r: 37, g: 37, b: 41, a: 255 }),
    {
        RgbaColor::charcoal()
    }
}

} // verus!

verus! {

#[derive(Debug, Clone, Copy, PartialEq, Eq, Hash, Structural)]
pub enum ToolKind {
    Brush,
    Pencil,
    Marker,
    Eraser,
}

/// Percentage by which each freehand tool scales the alpha of its color.
pub open spec fn tool_alpha_percent(tool: ToolKind) -> int {
    match tool {
        ToolKind::Brush => 100,
        ToolKind::Pencil => 72,
        ToolKind::Marker => 48,
        ToolKind::Eraser => 100,
    }
}

impl ToolKind {
    pub open spec fn spec_label(self) -> Seq<char> {
        match self {
            ToolKind::Brush => "ペン"@,
            ToolKind::Pencil => "えんぴつ"@,
            ToolKind::Marker => "マーカー"@,
            ToolKind::Eraser => "消しゴム"@,
        }
    }

    pub fn label(self) -> (r: &'static str)
        ensures
            r@ == self.spec_label(),
    {
        match self {
            ToolKind::Brush => "ペン",
            ToolKind::Pencil => "えんぴつ",
            ToolKind::Marker => "マーカー",
            ToolKind::Eraser => "消しゴム",
        }
    }

    /// The color a stroke of this tool is painted with: the alpha is scaled by the
    /// tool's alpha factor (1.0, 0.72, 0.48) and rounded; the eraser keeps the color.
    pub fn styled_color(self, color: RgbaColor) -> (c: RgbaColor)
        ensures
            c == (RgbaColor {
                a: scaled_alpha(color.a, tool_alpha_percent(self)) as u8,
                ..color
            }),
    {
        match self {
            ToolKind::Brush => color.with_alpha_percent(100),
            ToolKind::Pencil => color.with_alpha_percent(72),
            ToolKind::Marker => color.with_alpha_percent(48),
            ToolKind::Eraser => {
                assert(scaled_alpha(color.a, 100) == color.a);
                color
            },
        }
    }
}

#[derive(Debug, Clone, Copy, PartialEq, Eq, Hash, Structural)]
pub enum ShapeKind {
    Rectangle,
    Ellipse,
    Line,
}

impl ShapeKind {
    pub open spec fn spec_label(self) -> Seq<char> {
        match self {
            ShapeKind::Rectangle => "四角形"@,
            ShapeKind::Ellipse => "楕円"@,
            ShapeKind::Line => "直線"@,
        }
    }

    pub fn label(self) -> (r: &'static str)
        ensures
            r@ == self.spec_label(),
    {
        match self {
            ShapeKind::Rectangle => "四角形",
            ShapeKind::Ellipse => "楕円",
            ShapeKind::Line => "直線",
        }
    }

    pub open spec fn spec_supports_fill(self) -> bool {
        self is Rectangle || self is Ellipse
    }

    /// Rectangles and ellipses can carry a fill; lines cannot.
    pub fn supports_fill(self) -> (r: bool)
        ensures
            r == self.spec_supports_fill(),
    {
        match self {
            ShapeKind::Rectangle | ShapeKind::Ellipse => true,
            ShapeKind::Line => false,
        }
    }
}

#[derive(Debug, Clone, Copy, PartialEq, Eq, Hash, Structural)]
pub enum AlignmentKind {
    Left,
    HorizontalCenter,
    Right,
    Top,
    VerticalCenter,
    Bottom,
}

impl AlignmentKind {
    pub fn label(self) -> (r: &'static str)
        ensures
            r@ == (match self {
                AlignmentKind::Left => "左揃え"@,
                AlignmentKind::HorizontalCenter => "横中央揃え"@,
                AlignmentKind::Right => "右揃え"@,
                AlignmentKind::Top => "上揃え"@,
                AlignmentKind::VerticalCenter => "縦中央揃え"@,
                AlignmentKind::Bottom => "下揃え"@,
            }),
    {
        match self {
            AlignmentKind::Left => "左揃え",
            AlignmentKind::HorizontalCenter => "横中央揃え",
            AlignmentKind::Right => "右揃え",
            AlignmentKind::Top => "上揃え",
            AlignmentKind::VerticalCenter => "縦中央揃え",
            AlignmentKind::Bottom => "下揃え",
        }
    }
}

#[derive(Debug, Clone, Copy, PartialEq, Eq, Hash, Structural)]
pub enum StackOrderCommand {
    BringToFront,
    SendToBack,
    BringForward,
    SendBackward,
}

impl StackOrderCommand {
    pub fn label(self) -> (r: &'static str)
        ensures
            r@ == (match self {
                StackOrderCommand::BringToFront => "最前面へ"@,
                StackOrderCommand::SendToBack => "最背面へ"@,
                StackOrderCommand::BringForward => "一つ前面へ"@,
                StackOrderCommand::SendBackward => "一つ背面へ"@,
            }),
    {
        match self {
            StackOrderCommand::BringToFront => "最前面へ",
            StackOrderCommand::SendToBack => "最背面へ",
            StackOrderCommand::BringForward => "一つ前面へ",
            StackOrderCommand::SendBackward => "一つ背面へ",
        }
    }
}

#[derive(Debug, Clone, Copy, PartialEq, Eq, Hash, Structural)]
pub enum DistributionKind {
    Horizontal,
    Vertical,
}

impl DistributionKind {
    pub fn label(self) -> (r: &'static str)
        ensures
            r@ == (match self {
                DistributionKind::Horizontal => "横方向に等間隔"@,
                DistributionKind::Vertical => "縦方向に等間隔"@,
            }),
    {
        match self {
            DistributionKind::Horizontal => "横方向に等間隔",
            DistributionKind::Vertical => "縦方向に等間隔",
        }
    }
}

#[derive(Debug, Clone, Copy, PartialEq, Eq, Hash, Structural)]
pub enum ShapeHandle {
    TopLeft,
    TopRight,
    BottomRight,
    BottomLeft,
    Start,
    End,
}

impl ShapeHandle {
    pub open spec fn spec_opposite_corner(self) -> Option<ShapeHandle> {
        match self {
            ShapeHandle::TopLeft => Some(ShapeHandle::BottomRight),
            ShapeHandle::TopRight => Some(ShapeHandle::BottomLeft),
            ShapeHandle::BottomRight => Some(ShapeHandle::TopLeft),
            ShapeHandle::BottomLeft => Some(ShapeHandle::TopRight),
            ShapeHandle::Start | ShapeHandle::End => None,
        }
    }

    /// The diagonally opposite corner of a box handle; line end handles have none.
    pub fn opposite_corner(self) -> (r: Option<ShapeHandle>)
        ensures
            r == self.spec_opposite_corner(),
    {
        match self {
            ShapeHandle::TopLeft => Some(ShapeHandle::BottomRight),
            ShapeHandle::TopRight => Some(ShapeHandle::BottomLeft),
            ShapeHandle::BottomRight => Some(ShapeHandle::TopLeft),
            ShapeHandle::BottomLeft => Some(ShapeHandle::TopRight),
            ShapeHandle::Start | ShapeHandle::End => None,
        }
    }
}

/// Taking the opposite corner twice gives back the corner handle; only the two line
/// endpoints have no opposite corner.
pub proof fn law_opposite_corner_involution(handle: ShapeHandle)
    ensures
        handle.spec_opposite_corner() matches Some(o) ==> o.spec_opposite_corner() == Some(handle),
        handle.spec_opposite_corner() is None <==> (handle is Start || handle is End),
{
}

#[derive(Debug, Clone, Copy, PartialEq, Eq)]
pub struct PaintPoint {
    pub x: Scalar,
    pub y: Scalar,
}

impl PaintPoint {
    pub fn new(x: Scalar, y: Scalar) -> (p: Self)
        ensures
            p.x == x,
            p.y == y,
    {
        PaintPoint { x, y }
    }
}

#[derive(Debug, Clone, Copy, PartialEq, Eq)]
pub struct PaintVector {
    pub dx: Scalar,
    pub dy: Scalar,
}

/// `2^k`.
pub open spec fn two_to(k: nat) -> nat
    decreases k,
{
    if k == 0 {
        1
    } else {
        2 * two_to((k - 1) as nat)
    }
}

/// The largest `e` with `2^e <= n` (zero for `n < 2`).
pub open spec fn floor_log2(n: nat) -> nat
    decreases n,
{
    if n < 2 {
        0
    } else {
        1 + floor_log2(n / 2)
    }
}

/// Bit pattern of the single-precision number nearest to `n`, ties to even: what
/// `n as f32` gives for an unsigned integer.
pub open spec fn f32_bits_of(n: nat) -> u32 {
    if n == 0 {
        0
    } else if floor_log2(n) <= 23 {
        f32_bits_exact(n, floor_log2(n))
    } else {
        f32_bits_rounded(n, floor_log2(n))
    }
}

/// `n` with `2^e <= n < 2^(e + 1)`, `e <= 23`: held exactly.
pub open spec fn f32_bits_exact(n: nat, e: nat) -> u32 {
    ((127 + e) * two_to(23) + (n - two_to(e)) * two_to((23 - e) as nat)) as u32
}

/// `n` with `2^e <= n < 2^(e + 1)`, `e > 23`: the significand rounded to the nearest,
/// ties to even (a carry into the exponent comes out of the addition).
pub open spec fn f32_bits_rounded(n: nat, e: nat) -> u32 {
    let s = (e - 23) as nat;
    let q = n / two_to(s);
    let rem = n % two_to(s);
    let half = two_to((s - 1) as nat);
    let m = if rem > half || (rem == half && q % 2 == 1) {
        q + 1
    } else {
        q
    };
    ((127 + e) * two_to(23) + m - two_to(23)) as u32
}

proof fn lemma_two_to_23()
    ensures
        two_to(23) == 8388608,
{
    reveal_with_fuel(two_to, 24);
}

proof fn lemma_two_to_positive(a: nat)
    ensures
        two_to(a) >= 1,
    decreases a,
{
    if a > 0 {
        lemma_two_to_positive((a - 1) as nat);
    }
}

proof fn lemma_two_to_monotone(a: nat, b: nat)
    requires
        a <= b,
    ensures
        1 <= two_to(a) <= two_to(b),
    decreases b,
{
    lemma_two_to_positive(a);
    if a < b {
        lemma_two_to_monotone(a, (b - 1) as nat);
    }
}

proof fn lemma_floor_log2_bounds(n: nat)
    requires
        n >= 1,
    ensures
        two_to(floor_log2(n)) <= n < two_to(floor_log2(n) + 1),
    decreases n,
{
    if n >= 2 {
        lemma_floor_log2_bounds(n / 2);
        let f = floor_log2(n / 2);
        assert(floor_log2(n) == f + 1);
        assert(two_to(f + 1) == 2 * two_to(f));
        assert(two_to(f + 2) == 2 * two_to(f + 1));
    } else {
        assert(floor_log2(n) == 0);
        assert(two_to(1) == 2 * two_to(0));
    }
}

proof fn lemma_floor_log2_u32(n: nat)
    requires
        1 <= n <= u32::MAX,
    ensures
        floor_log2(n) <= 31,
        two_to(floor_log2(n)) <= n < two_to(floor_log2(n) + 1),
{
    lemma_floor_log2_bounds(n);
    if floor_log2(n) >= 32 {
        lemma_two_to_monotone(32, floor_log2(n));
        reveal_with_fuel(two_to, 33);
    }
}

fn two_to_exec(k: u64) -> (r: u64)
    requires
        k <= 40,
    ensures
        r == two_to(k as nat),
{
    let mut r: u64 = 1;
    let mut i: u64 = 0;
    while i < k
        invariant
            i <= k <= 40,
            r == two_to(i as nat),
        decreases k - i,
    {
        proof {
            lemma_two_to_monotone((i + 1) as nat, 40);
            reveal_with_fuel(two_to, 41);
        }
        r = r * 2;
        i = i + 1;
    }
    r
}

fn floor_log2_exec(n: u32) -> (e: u64)
    requires
        n >= 1,
    ensures
        e == floor_log2(n as nat),
        e <= 31,
{
    proof {
        lemma_floor_log2_u32(n as nat);
    }
    let mut e: u64 = 0;
    let mut t: u32 = n;
    while t >= 2
        invariant
            1 <= t <= n,
            floor_log2(n as nat) == e + floor_log2(t as nat),
            floor_log2(n as nat) <= 31,
        decreases t,
    {
        t = t / 2;
        e = e + 1;
    }
    e
}

fn exact_bits(n: u32, e: u64) -> (bits: u32)
    requires
        e <= 23,
        two_to(e as nat) <= n,
    ensures
        bits == f32_bits_exact(n as nat, e as nat),
{
    proof {
        lemma_two_to_23();
        lemma_two_to_monotone((23 - e) as nat, 23);
    }
    let p_e = two_to_exec(e);
    let scale = two_to_exec(23 - e);
    assert((n - p_e) * scale <= 4294967296 * 8388608) by (nonlinear_arith)
        requires
            n - p_e <= 4294967296,
            scale <= 8388608,
            n >= p_e,
    ;
    let bits = (127 + e) * 8388608 + ((n as u64) - p_e) * scale;
    bits as u32
}

fn rounded_bits(n: u32, e: u64) -> (bits: u32)
    requires
        23 < e <= 31,
    ensures
        bits == f32_bits_rounded(n as nat, e as nat),
{
    proof {
        lemma_two_to_23();
    }
    let s = e - 23;
    let ps = two_to_exec(s);
    proof {
        lemma_two_to_positive(s as nat);
    }
    let q = (n as u64) / ps;
    let rem = (n as u64) % ps;
    let half = two_to_exec(s - 1);
    assert(q <= n) by (nonlinear_arith)
        requires
            q == (n as u64) / ps,
            ps >= 1,
    ;
    let m = if rem > half || (rem == half && q % 2 == 1) {
        q + 1
    } else {
        q
    };
    let bits = (127 + e) * 8388608 + m - 8388608;
    bits as u32
}

impl Scalar {
    /// The single-precision number nearest to `n` (ties to even), as `n as f32` gives.
    pub fn from_u32(n: u32) -> (r: Scalar)
        ensures
            r.bits == f32_bits_of(n as nat),
    {
        if n == 0 {
            return Scalar { bits: 0 };
        }
        let e = floor_log2_exec(n);
        proof {
            lemma_floor_log2_u32(n as nat);
        }
        if e <= 23 {
            Scalar { bits: exact_bits(n, e) }
        } else {
            Scalar { bits: rounded_bits(n, e) }
        }
    }
}

/// The sign bit is set (negative numbers, negative zero and some NaNs).
pub open spec fn bits_negative(bits: u32) -> bool {
    bits & 0x8000_0000u32 != 0
}

/// A key that orders the non-NaN values as numbers: magnitudes are ordered like their
/// bit patterns, and both zeros get the key zero.
pub open spec fn bits_key(bits: u32) -> int {
    let magnitude = (bits & 0x7fff_ffffu32) as int;
    if bits_negative(bits) {
        -magnitude
    } else {
        magnitude
    }
}

/// `a < b` of the two numbers (false when either is NaN).
pub open spec fn bits_less(a: u32, b: u32) -> bool {
    !bits_is_nan(a) && !bits_is_nan(b) && bits_key(a) < bits_key(b)
}

/// `a >= b` of the two numbers (false when either is NaN).
pub open spec fn bits_at_least(a: u32, b: u32) -> bool {
    !bits_is_nan(a) && !bits_is_nan(b) && bits_key(a) >= bits_key(b)
}

/// What `x.floor() as u32` gives: zero for NaN, for negative numbers and for numbers
/// below one, `u32::MAX` from `2^32` up, and the integer part in between.
pub open spec fn floor_u32_of_bits(bits: u32) -> u32 {
    let biased = (bits >> 23u32) & 0xffu32;
    let m = (bits & 0x007f_ffffu32) | 0x0080_0000u32;
    if bits_is_nan(bits) || bits_negative(bits) || biased < 127 {
        0
    } else if biased <= 150 {
        m >> ((150 - biased) as u32)
    } else if biased <= 158 {
        m << ((biased - 150) as u32)
    } else {
        u32::MAX
    }
}

impl Scalar {
    /// `self < other` of the two numbers.
    pub fn less_than(self, other: Scalar) -> (r: bool)
        ensures
            r == bits_less(self.bits, other.bits),
    {
        if self.is_nan() || other.is_nan() {
            return false;
        }
        let ma = (self.bits & 0x7fff_ffffu32) as i64;
        let mb = (other.bits & 0x7fff_ffffu32) as i64;
        let ka = if self.bits & 0x8000_0000u32 != 0 {
            -ma
        } else {
            ma
        };
        let kb = if other.bits & 0x8000_0000u32 != 0 {
            -mb
        } else {
            mb
        };
        ka < kb
    }

    /// `self >= other` of the two numbers.
    pub fn at_least(self, other: Scalar) -> (r: bool)
        ensures
            r == bits_at_least(self.bits, other.bits),
    {
        if self.is_nan() || other.is_nan() {
            return false;
        }
        let ma = (self.bits & 0x7fff_ffffu32) as i64;
        let mb = (other.bits & 0x7fff_ffffu32) as i64;
        let ka = if self.bits & 0x8000_0000u32 != 0 {
            -ma
        } else {
            ma
        };
        let kb = if other.bits & 0x8000_0000u32 != 0 {
            -mb
        } else {
            mb
        };
        ka >= kb
    }

    /// `self.floor() as u32`.
    pub fn floor_to_u32(self) -> (r: u32)
        ensures
            r == floor_u32_of_bits(self.bits),
    {
        let bits = self.bits;
        let biased = (bits >> 23u32) & 0xffu32;
        let m = (bits & 0x007f_ffffu32) | 0x0080_0000u32;
        if self.is_nan() || bits & 0x8000_0000u32 != 0 || biased < 127 {
            0
        } else if biased <= 150 {
            m >> (150 - biased)
        } else if biased <= 158 {
            m << (biased - 150)
        } else {
            u32::MAX
        }
    }
}

/// Default of the settings flags that start switched on (grid, guides, rulers, layers).
pub fn default_true() -> (r: bool)
    ensures
        r,
{
    true
}

/// Default of the settings flags that start switched off (grid snapping, layer lock).
pub fn default_false() -> (r: bool)
    ensures
        !r,
{
    false
}

/// Active layer of a drawing read without one.
pub fn default_active_layer_id() -> (r: LayerId)
    ensures
        r == DEFAULT_LAYER_ID,
{
    DEFAULT_LAYER_ID
}

/// Next layer id of a drawing read without one.
pub fn default_next_layer_id() -> (r: LayerId)
    ensures
        r == DEFAULT_LAYER_ID + 1,
{
    DEFAULT_LAYER_ID + 1
}

/// Bit pattern of `f32::EPSILON`.
pub const EPSILON_BITS: u32 = 0x3400_0000u32;

/// The magnitude of the value is below `f32::EPSILON` (false for NaN).
pub open spec fn bits_below_epsilon(bits: u32) -> bool {
    (bits & 0x7fff_ffffu32) < EPSILON_BITS
}

impl PaintVector {
    pub fn new(dx: Scalar, dy: Scalar) -> (v: Self)
        ensures
            v.dx == dx,
            v.dy == dy,
    {
        PaintVector { dx, dy }
    }

    /// Both components are smaller than `f32::EPSILON` in magnitude.
    pub fn is_zero(self) -> (r: bool)
        ensures
            r == (bits_below_epsilon(self.dx.bits) && bits_below_epsilon(self.dy.bits)),
    {
        (self.dx.bits & 0x7fff_ffffu32) < EPSILON_BITS && (self.dy.bits & 0x7fff_ffffu32)
            < EPSILON_BITS
    }
}

} // verus!
