use vstd::prelude::*;
use vstd::std_specs::ops::AddSpecImpl;
use vstd::std_specs::ops::SubSpecImpl;
use vstd::std_specs::ops::MulSpecImpl;
use vstd::std_specs::ops::DivSpecImpl;
use vstd::std_specs::convert::FromSpecImpl;
use vstd::std_specs::cmp::PartialOrdSpecImpl;

verus! {

/// The size of a rectangular area of the screen, in cells.
#[derive(Clone, Copy, Debug, PartialEq, Eq, Structural, Hash)]
pub struct Bounds {
    pub width: usize,
    pub height: usize,
}

/// A rectangle given by its top-left corner and its size.
#[derive(Clone, Copy, Debug, PartialEq, Eq, Structural, Hash, PartialOrd)]
pub struct Rect {
    pub top_left: Vec2,
    pub size: Vec2,
}

/// A signed position or displacement on the screen; `x` grows to the right
/// and `y` grows downwards.
#[derive(Clone, Copy, Debug, PartialEq, Eq, Structural, Hash)]
pub struct Vec2 {
    pub x: isize,
    pub y: isize,
}

/// Whether `v` fits in an `isize`.
pub open spec fn fits_isize(v: int) -> bool {
    isize::MIN <= v <= isize::MAX
}

/// Whether `v` fits in a `usize`.
pub open spec fn fits_usize(v: int) -> bool {
    0 <= v <= usize::MAX
}

/// Integer division rounding towards zero, as Rust's `/` does on signed integers.
pub open spec fn trunc_div(a: int, b: int) -> int {
    if b > 0 {
        if a >= 0 { a / b } else { -((-a) / b) }
    } else {
        if a >= 0 { -(a / (-b)) } else { (-a) / (-b) }
    }
}

/// Component-wise sum.
pub open spec fn vec2_add(a: Vec2, b: Vec2) -> Vec2 {
    Vec2 { x: (a.x + b.x) as isize, y: (a.y + b.y) as isize }
}

/// Component-wise difference.
pub open spec fn vec2_sub(a: Vec2, b: Vec2) -> Vec2 {
    Vec2 { x: (a.x - b.x) as isize, y: (a.y - b.y) as isize }
}

/// Whether the component-wise sum fits in `isize`.
pub open spec fn vec2_add_fits(a: Vec2, b: Vec2) -> bool {
    fits_isize(a.x + b.x) && fits_isize(a.y + b.y)
}

/// Component-wise sum of sizes.
pub open spec fn bounds_add(a: Bounds, b: Bounds) -> Bounds {
    Bounds { width: (a.width + b.width) as usize, height: (a.height + b.height) as usize }
}

/// Component-wise difference of sizes.
pub open spec fn bounds_sub(a: Bounds, b: Bounds) -> Bounds {
    Bounds { width: (a.width - b.width) as usize, height: (a.height - b.height) as usize }
}

/// Whether the component-wise sum of sizes fits in `usize`.
pub open spec fn bounds_add_fits(a: Bounds, b: Bounds) -> bool {
    fits_usize(a.width + b.width) && fits_usize(a.height + b.height)
}

/// Reading order on screen positions: first by row (`y`), then by column (`x`).
pub open spec fn vec2_lt(a: Vec2, b: Vec2) -> bool {
    a.y < b.y || (a.y == b.y && a.x < b.x)
}

impl Bounds {
    pub fn new(width: usize, height: usize) -> (b: Bounds)
        ensures
            b.width == width,
            b.height == height,
    {
        Bounds { width, height }
    }

    pub fn width(&self) -> (w: &usize)
        ensures
            *w == self.width,
    {
        &self.width
    }

    pub fn height(&self) -> (h: &usize)
        ensures
            *h == self.height,
    {
        &self.height
    }

    pub fn into_parts(self) -> (parts: (usize, usize))
        ensures
            parts == (self.width, self.height),
    {
        (self.width, self.height)
    }

    /// Whether `self` is exactly one column wider than `other`.
    pub fn is_to_the_right_of(&self, other: &Bounds) -> (r: bool)
        requires
            other.width < usize::MAX,
        ensures
            r == (self.width == other.width + 1),
    {
        self.width == other.width + 1
    }

    /// Component-wise `+=`.
    pub fn add_assign(&mut self, rhs: Bounds)
        requires
            fits_usize(old(self).width + rhs.width),
            fits_usize(old(self).height + rhs.height),
        ensures
            final(self).width == old(self).width + rhs.width,
            final(self).height == old(self).height + rhs.height,
    {
        self.width = self.width + rhs.width;
        self.height = self.height + rhs.height;
    }

    /// Component-wise `-=`.
    pub fn sub_assign(&mut self, rhs: Bounds)
        requires
            rhs.width <= old(self).width,
            rhs.height <= old(self).height,
        ensures
            final(self).width == old(self).width - rhs.width,
            final(self).height == old(self).height - rhs.height,
    {
        self.width = self.width - rhs.width;
        self.height = self.height - rhs.height;
    }

    /// Component-wise `*=`.
    pub fn mul_assign(&mut self, rhs: Bounds)
        requires
            fits_usize(old(self).width * rhs.width),
            fits_usize(old(self).height * rhs.height),
        ensures
            final(self).width == old(self).width * rhs.width,
            final(self).height == old(self).height * rhs.height,
    {
        self.width = self.width * rhs.width;
        self.height = self.height * rhs.height;
    }

    /// Component-wise `/=`.
    pub fn div_assign(&mut self, rhs: Bounds)
        requires
            rhs.width != 0,
            rhs.height != 0,
        ensures
            final(self).width == old(self).width / rhs.width,
            final(self).height == old(self).height / rhs.height,
    {
        self.width = self.width / rhs.width;
        self.height = self.height / rhs.height;
    }
}

impl Default for Bounds {
    fn default() -> (b: Bounds)
        ensures
            b == (Bounds { width: 0, height: 0 }),
    {
        Bounds { width: 0, height: 0 }
    }
}

impl core::ops::Add for Bounds {
    type Output = Bounds;

    fn add(self, rhs: Bounds) -> (r: Bounds) {
        Bounds { width: self.width + rhs.width, height: self.height + rhs.height }
    }
}

impl AddSpecImpl for Bounds {
    open spec fn obeys_add_spec() -> bool {
        true
    }

    open spec fn add_req(self, rhs: Bounds) -> bool {
        bounds_add_fits(self, rhs)
    }

    open spec fn add_spec(self, rhs: Bounds) -> Bounds {
        bounds_add(self, rhs)
    }
}

impl core::ops::Sub for Bounds {
    type Output = Bounds;

    fn sub(self, rhs: Bounds) -> (r: Bounds) {
        Bounds { width: self.width - rhs.width, height: self.height - rhs.height }
    }
}

impl SubSpecImpl for Bounds {
    open spec fn obeys_sub_spec() -> bool {
        true
    }

    open spec fn sub_req(self, rhs: Bounds) -> bool {
        rhs.width <= self.width && rhs.height <= self.height
    }

    open spec fn sub_spec(self, rhs: Bounds) -> Bounds {
        bounds_sub(self, rhs)
    }
}

impl core::ops::Mul for Bounds {
    type Output = Bounds;

    fn mul(self, rhs: Bounds) -> (r: Bounds) {
        Bounds { width: self.width * rhs.width, height: self.height * rhs.height }
    }
}

impl MulSpecImpl for Bounds {
    open spec fn obeys_mul_spec() -> bool {
        true
    }

    open spec fn mul_req(self, rhs: Bounds) -> bool {
        fits_usize(self.width * rhs.width) && fits_usize(self.height * rhs.height)
    }

    open spec fn mul_spec(self, rhs: Bounds) -> Bounds {
        Bounds {
            width: (self.width * rhs.width) as usize,
            height: (self.height * rhs.height) as usize,
        }
    }
}

impl core::ops::Div for Bounds {
    type Output = Bounds;

    fn div(self, rhs: Bounds) -> (r: Bounds) {
        Bounds { width: self.width / rhs.width, height: self.height / rhs.height }
    }
}

impl DivSpecImpl for Bounds {
    open spec fn obeys_div_spec() -> bool {
        true
    }

    open spec fn div_req(self, rhs: Bounds) -> bool {
        rhs.width != 0 && rhs.height != 0
    }

    open spec fn div_spec(self, rhs: Bounds) -> Bounds {
        Bounds { width: self.width / rhs.width, height: self.height / rhs.height }
    }
}

impl From<Bounds> for Vec2 {
    fn from(value: Bounds) -> (v: Vec2) {
        Vec2 { x: value.width as isize, y: value.height as isize }
    }
}

impl FromSpecImpl<Bounds> for Vec2 {
    open spec fn obeys_from_spec() -> bool {
        true
    }

    open spec fn from_spec(value: Bounds) -> Vec2 {
        Vec2 { x: value.width as isize, y: value.height as isize }
    }
}

impl Rect {
    pub fn new(top_left: Vec2, size: Vec2) -> (r: Rect)
        ensures
            r.top_left == top_left,
            r.size == size,
    {
        Rect { top_left, size }
    }

    pub fn size(&self) -> (s: &Vec2)
        ensures
            *s == self.size,
    {
        &self.size
    }
}

impl Default for Rect {
    fn default() -> (r: Rect)
        ensures
            r == (Rect { top_left: Vec2 { x: 0, y: 0 }, size: Vec2 { x: 0, y: 0 } }),
    {
        Rect { top_left: Vec2 { x: 0, y: 0 }, size: Vec2 { x: 0, y: 0 } }
    }
}

/// Signed division rounding towards zero, spelled so that each step is a
/// division by a positive divisor.
fn div_toward_zero(a: isize, b: isize) -> (r: isize)
    requires
        b != 0,
        !(a == isize::MIN && b == -1),
    ensures
        r == trunc_div(a as int, b as int),
{
    if b > 0 {
        let r = a / b;
        assert(r == trunc_div(a as int, b as int));
        r
    } else if b == isize::MIN {
        if a == isize::MIN {
            assert((-(a as int)) / (-(b as int)) == 1) by (nonlinear_arith)
                requires
                    a == b,
                    b < 0,
            ;
            1
        } else {
            let ghost m: int = -(b as int);
            if a >= 0 {
                assert((a as int) / m == 0) by (nonlinear_arith)
                    requires
                        0 <= a < m,
                ;
            } else {
                assert((-(a as int)) / m == 0) by (nonlinear_arith)
                    requires
                        0 < -(a as int) < m,
                ;
            }
            assert(trunc_div(a as int, b as int) == 0);
            0
        }
    } else if b == -1 {
        assert(a >= 0 ==> (a as int) / 1 == a);
        assert(a < 0 ==> (-(a as int)) / 1 == -(a as int));
        assert(-a == trunc_div(a as int, b as int));
        -a
    } else {
        let nb: isize = -b;
        let q: isize = a / nb;
        assert(q == trunc_div(a as int, nb as int));
        if a < 0 {
            let ghost m: int = -(isize::MIN as int);
            assert((-(a as int)) / (nb as int) < m) by (nonlinear_arith)
                requires
                    nb >= 2,
                    0 < -(a as int) <= m,
            ;
        }
        assert(-q == trunc_div(a as int, b as int));
        -q
    }
}

impl Vec2 {
    pub fn new(x: isize, y: isize) -> (v: Vec2)
        ensures
            v.x == x,
            v.y == y,
    {
        Vec2 { x, y }
    }

    pub fn x(&self) -> (x: &isize)
        ensures
            *x == self.x,
    {
        &self.x
    }

    pub fn set_x(&mut self, x: isize)
        ensures
            final(self).x == x,
            final(self).y == old(self).y,
    {
        self.x = x;
    }

    pub fn y(&self) -> (y: &isize)
        ensures
            *y == self.y,
    {
        &self.y
    }

    pub fn set_y(&mut self, y: isize)
        ensures
            final(self).x == old(self).x,
            final(self).y == y,
    {
        self.y = y;
    }

    pub fn into_parts(self) -> (parts: (isize, isize))
        ensures
            parts == (self.x, self.y),
    {
        (self.x, self.y)
    }

    /// Whether `self` stands in the column just right of `other` (rows are not compared).
    pub fn is_to_the_right_of(&self, other: &Vec2) -> (r: bool)
        requires
            other.x < isize::MAX,
        ensures
            r == (self.x == other.x + 1),
    {
        self.x == other.x + 1
    }

    /// Whether `self` lies inside the half-open rectangle `r`.
    pub fn is_within_rect(&self, r: &Rect) -> (b: bool)
        requires
            (self.x >= r.top_left.x && self.y >= r.top_left.y) ==> fits_isize(
                r.top_left.x + r.size.x,
            ),
            (self.x >= r.top_left.x && self.y >= r.top_left.y && self.x < r.top_left.x
                + r.size.x) ==> fits_isize(r.top_left.y + r.size.y),
        ensures
            b == (r.top_left.x <= self.x < r.top_left.x + r.size.x && r.top_left.y <= self.y
                < r.top_left.y + r.size.y),
    {
        self.x >= r.top_left.x && self.y >= r.top_left.y && self.x < r.top_left.x + r.size.x
            && self.y < r.top_left.y + r.size.y
    }

    /// Whether `self` lies inside an area of size `b` whose top-left corner is the origin.
    pub fn is_within_bounds(&self, b: &Bounds) -> (r: bool)
        ensures
            r == (0 <= self.x && 0 <= self.y && self.x < (b.width as isize) && self.y < (
            b.height as isize)),
    {
        self.x >= 0 && self.y >= 0 && self.x < *b.width() as isize && self.y < *b.height() as isize
    }

    /// Component-wise `+=`.
    pub fn add_assign(&mut self, rhs: Vec2)
        requires
            fits_isize(old(self).x + rhs.x),
            fits_isize(old(self).y + rhs.y),
        ensures
            final(self).x == old(self).x + rhs.x,
            final(self).y == old(self).y + rhs.y,
    {
        self.x = self.x + rhs.x;
        self.y = self.y + rhs.y;
    }

    /// Component-wise `-=`.
    pub fn sub_assign(&mut self, rhs: Vec2)
        requires
            fits_isize(old(self).x - rhs.x),
            fits_isize(old(self).y - rhs.y),
        ensures
            final(self).x == old(self).x - rhs.x,
            final(self).y == old(self).y - rhs.y,
    {
        self.x = self.x - rhs.x;
        self.y = self.y - rhs.y;
    }

    /// Component-wise `*=`.
    pub fn mul_assign(&mut self, rhs: Vec2)
        requires
            fits_isize(old(self).x * rhs.x),
            fits_isize(old(self).y * rhs.y),
        ensures
            final(self).x == old(self).x * rhs.x,
            final(self).y == old(self).y * rhs.y,
    {
        self.x = self.x * rhs.x;
        self.y = self.y * rhs.y;
    }

    /// Component-wise `/=`, rounding towards zero.
    pub fn div_assign(&mut self, rhs: Vec2)
        requires
            rhs.x != 0,
            rhs.y != 0,
            !(old(self).x == isize::MIN && rhs.x == -1),
            !(old(self).y == isize::MIN && rhs.y == -1),
        ensures
            final(self).x == trunc_div(old(self).x as int, rhs.x as int),
            final(self).y == trunc_div(old(self).y as int, rhs.y as int),
    {
        self.x = div_toward_zero(self.x, rhs.x);
        self.y = div_toward_zero(self.y, rhs.y);
    }

    /// The later of two positions in reading order.
    pub fn max(self, other: Vec2) -> (m: Vec2)
        ensures
            m == (if vec2_lt(other, self) { self } else { other }),
    {
        if other.y < self.y || (other.y == self.y && other.x < self.x) {
            self
        } else {
            other
        }
    }

    /// The earlier of two positions in reading order.
    pub fn min(self, other: Vec2) -> (m: Vec2)
        ensures
            m == (if vec2_lt(other, self) { other } else { self }),
    {
        if other.y < self.y || (other.y == self.y && other.x < self.x) {
            other
        } else {
            self
        }
    }
}

impl Default for Vec2 {
    fn default() -> (v: Vec2)
        ensures
            v == (Vec2 { x: 0, y: 0 }),
    {
        Vec2 { x: 0, y: 0 }
    }
}

impl core::ops::Add for Vec2 {
    type Output = Vec2;

    fn add(self, rhs: Vec2) -> (r: Vec2) {
        Vec2 { x: self.x + rhs.x, y: self.y + rhs.y }
    }
}

impl AddSpecImpl for Vec2 {
    open spec fn obeys_add_spec() -> bool {
        true
    }

    open spec fn add_req(self, rhs: Vec2) -> bool {
        vec2_add_fits(self, rhs)
    }

    open spec fn add_spec(self, rhs: Vec2) -> Vec2 {
        vec2_add(self, rhs)
    }
}

impl core::ops::Sub for Vec2 {
    type Output = Vec2;

    fn sub(self, rhs: Vec2) -> (r: Vec2) {
        Vec2 { x: self.x - rhs.x, y: self.y - rhs.y }
    }
}

impl SubSpecImpl for Vec2 {
    open spec fn obeys_sub_spec() -> bool {
        true
    }

    open spec fn sub_req(self, rhs: Vec2) -> bool {
        fits_isize(self.x - rhs.x) && fits_isize(self.y - rhs.y)
    }

    open spec fn sub_spec(self, rhs: Vec2) -> Vec2 {
        vec2_sub(self, rhs)
    }
}

impl core::ops::Mul for Vec2 {
    type Output = Vec2;

    fn mul(self, rhs: Vec2) -> (r: Vec2) {
        Vec2 { x: self.x * rhs.x, y: self.y * rhs.y }
    }
}

impl MulSpecImpl for Vec2 {
    open spec fn obeys_mul_spec() -> bool {
        true
    }

    open spec fn mul_req(self, rhs: Vec2) -> bool {
        fits_isize(self.x * rhs.x) && fits_isize(self.y * rhs.y)
    }

    open spec fn mul_spec(self, rhs: Vec2) -> Vec2 {
        Vec2 { x: (self.x * rhs.x) as isize, y: (self.y * rhs.y) as isize }
    }
}

impl core::ops::Div for Vec2 {
    type Output = Vec2;

    fn div(self, rhs: Vec2) -> (r: Vec2) {
        Vec2 { x: div_toward_zero(self.x, rhs.x), y: div_toward_zero(self.y, rhs.y) }
    }
}

impl DivSpecImpl for Vec2 {
    open spec fn obeys_div_spec() -> bool {
        true
    }

    open spec fn div_req(self, rhs: Vec2) -> bool {
        &&& rhs.x != 0
        &&& rhs.y != 0
        &&& !(self.x == isize::MIN && rhs.x == -1)
        &&& !(self.y == isize::MIN && rhs.y == -1)
    }

    open spec fn div_spec(self, rhs: Vec2) -> Vec2 {
        Vec2 {
            x: trunc_div(self.x as int, rhs.x as int) as isize,
            y: trunc_div(self.y as int, rhs.y as int) as isize,
        }
    }
}

impl PartialOrd for Vec2 {
    fn partial_cmp(&self, other: &Vec2) -> (r: Option<core::cmp::Ordering>) {
        if self.y < other.y {
            Some(core::cmp::Ordering::Less)
        } else if self.y > other.y {
            Some(core::cmp::Ordering::Greater)
        } else if self.x < other.x {
            Some(core::cmp::Ordering::Less)
        } else if self.x > other.x {
            Some(core::cmp::Ordering::Greater)
        } else {
            Some(core::cmp::Ordering::Equal)
        }
    }
}

impl PartialOrdSpecImpl for Vec2 {
    open spec fn obeys_partial_cmp_spec() -> bool {
        true
    }

    open spec fn partial_cmp_spec(&self, other: &Vec2) -> Option<core::cmp::Ordering> {
        if vec2_lt(*self, *other) {
            Some(core::cmp::Ordering::Less)
        } else if vec2_lt(*other, *self) {
            Some(core::cmp::Ordering::Greater)
        } else {
            Some(core::cmp::Ordering::Equal)
        }
    }
}

/// Reading order on positions is a strict total order: any two positions are
/// either equal or exactly one comes first.
pub proof fn lemma_vec2_order_total(a: Vec2, b: Vec2)
    ensures
        a == b || vec2_lt(a, b) || vec2_lt(b, a),
        !(vec2_lt(a, b) && vec2_lt(b, a)),
        !vec2_lt(a, a),
{
}

/// Reading order on positions is transitive.
pub proof fn lemma_vec2_order_transitive(a: Vec2, b: Vec2, c: Vec2)
    requires
        vec2_lt(a, b),
        vec2_lt(b, c),
    ensures
        vec2_lt(a, c),
{
}

/// Adding a displacement and then subtracting it gives back the position.
pub proof fn lemma_vec2_add_sub_roundtrip(a: Vec2, b: Vec2)
    requires
        vec2_add_fits(a, b),
    ensures
        fits_isize(vec2_add(a, b).x - b.x) && fits_isize(vec2_add(a, b).y - b.y),
        vec2_sub(vec2_add(a, b), b) == a,
{
}

/// Adding a size and then subtracting it gives back the size.
pub proof fn lemma_bounds_add_sub_roundtrip(a: Bounds, b: Bounds)
    requires
        bounds_add_fits(a, b),
    ensures
        b.width <= bounds_add(a, b).width && b.height <= bounds_add(a, b).height,
        bounds_sub(bounds_add(a, b), b) == a,
{
}

} // verus!
