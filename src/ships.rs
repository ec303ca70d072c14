//! Ship shapes: a sequence of (local offset, damage value) components with
//! distinct offsets, a rotation tag, and the transform between rotations.

use crate::geometry::{Rotation, Vec2, mirrors, transposes};
use vstd::prelude::*;

verus! {

/// The components of a ship: each local offset with its damage value.
pub type Shape = Seq<(Vec2, u64)>;

/// Largest element of a sequence of integers; 0 for the empty sequence.
pub open spec fn seq_max(s: Seq<int>) -> int
    decreases s.len(),
{
    if s.len() == 0 {
        0
    } else if s.len() == 1 {
        s[0]
    } else {
        let m = seq_max(s.drop_last());
        if s.last() > m { s.last() } else { m }
    }
}

pub open spec fn xs(c: Shape) -> Seq<int> {
    c.map_values(|p: (Vec2, u64)| p.0.x as int)
}

pub open spec fn ys(c: Shape) -> Seq<int> {
    c.map_values(|p: (Vec2, u64)| p.0.y as int)
}

/// Width of the bounding box: largest column offset plus one.
pub open spec fn width(c: Shape) -> int {
    seq_max(xs(c)) + 1
}

/// Height of the bounding box: largest row offset plus one.
pub open spec fn height(c: Shape) -> int {
    seq_max(ys(c)) + 1
}

/// A shape is non-empty, its offsets are distinct, its values are nonzero,
/// and its bounding box starts at the origin.
pub open spec fn shape_wf(c: Shape) -> bool {
    &&& c.len() > 0
    &&& forall|i: int, j: int| 0 <= i < c.len() && 0 <= j < c.len() && i != j
        ==> #[trigger] c[i].0 != #[trigger] c[j].0
    &&& forall|i: int| 0 <= i < c.len() ==> {
        &&& (#[trigger] c[i]).1 > 0
        &&& c[i].0.x < u64::MAX
        &&& c[i].0.y < u64::MAX
    }
    &&& exists|i: int| 0 <= i < c.len() && (#[trigger] c[i]).0.x == 0
    &&& exists|i: int| 0 <= i < c.len() && (#[trigger] c[i]).0.y == 0
}

/// Every offset transposed.
pub open spec fn transpose(c: Shape) -> Shape {
    c.map_values(|p: (Vec2, u64)| (Vec2 { x: p.0.y, y: p.0.x }, p.1))
}

/// Every offset mirrored about the far corner of the bounding box.
pub open spec fn mirror(c: Shape) -> Shape {
    c.map_values(
        |p: (Vec2, u64)|
            (Vec2 { x: (seq_max(xs(c)) - p.0.x) as u64, y: (seq_max(ys(c)) - p.0.y) as u64 }, p.1),
    )
}

/// The shape seen by a ship turned from rotation `from` to rotation `to`:
/// transposed where the parities differ, then mirrored where the direction
/// flags differ.
pub open spec fn turn(c: Shape, from: Rotation, to: Rotation) -> Shape {
    let t = if transposes(from, to) { transpose(c) } else { c };
    if mirrors(from, to) { mirror(t) } else { t }
}

/// Number of components with value 2.
pub open spec fn critical_count(c: Shape) -> nat
    decreases c.len(),
{
    if c.len() == 0 {
        0
    } else {
        critical_count(c.drop_last()) + if c.last().1 == 2 { 1nat } else { 0nat }
    }
}

/// The glyph of a damage value.
pub open spec fn glyph(value: u64, show_ones: bool, show_zeros: bool) -> char {
    if value == 0 {
        if show_zeros { '-' } else { '\0' }
    } else if value == 1 {
        if show_ones { '*' } else { '\0' }
    } else if value == 2 {
        'x'
    } else if value == 3 {
        '+'
    } else if value == 4 {
        'o'
    } else {
        '\0'
    }
}

pub open spec fn carrier_shape() -> Shape {
    seq![
        (Vec2 { x: 2, y: 0 }, 1u64),
        (Vec2 { x: 3, y: 0 }, 1u64),
        (Vec2 { x: 0, y: 1 }, 1u64),
        (Vec2 { x: 1, y: 1 }, 1u64),
        (Vec2 { x: 2, y: 1 }, 2u64),
        (Vec2 { x: 3, y: 1 }, 2u64),
        (Vec2 { x: 4, y: 1 }, 1u64),
        (Vec2 { x: 2, y: 2 }, 1u64),
        (Vec2 { x: 3, y: 2 }, 1u64),
    ]
}

pub open spec fn cruiser_shape() -> Shape {
    seq![
        (Vec2 { x: 0, y: 0 }, 1u64),
        (Vec2 { x: 1, y: 0 }, 2u64),
        (Vec2 { x: 2, y: 0 }, 1u64),
        (Vec2 { x: 0, y: 1 }, 1u64),
        (Vec2 { x: 1, y: 1 }, 2u64),
        (Vec2 { x: 2, y: 1 }, 1u64),
    ]
}

pub open spec fn minesweeper_shape() -> Shape {
    seq![
        (Vec2 { x: 0, y: 0 }, 1u64),
        (Vec2 { x: 1, y: 0 }, 1u64),
        (Vec2 { x: 2, y: 0 }, 2u64),
        (Vec2 { x: 3, y: 0 }, 1u64),
    ]
}

/// Every element is at most the maximum, and some element reaches it.
pub proof fn lemma_seq_max(s: Seq<int>)
    requires
        s.len() > 0,
    ensures
        forall|i: int| 0 <= i < s.len() ==> s[i] <= seq_max(s),
        exists|i: int| 0 <= i < s.len() && s[i] == seq_max(s),
    decreases s.len(),
{
    if s.len() == 1 {
        assert(s[0] == seq_max(s));
    } else {
        let t = s.drop_last();
        lemma_seq_max(t);
        assert forall|i: int| 0 <= i < s.len() implies s[i] <= seq_max(s) by {
            if i < s.len() - 1 {
                assert(s[i] == t[i]);
            }
        }
        if s.last() > seq_max(t) {
            assert(s[s.len() - 1] == seq_max(s));
        } else {
            let k = choose|k: int| 0 <= k < t.len() && t[k] == seq_max(t);
            assert(s[k] == seq_max(s));
        }
    }
}

/// An upper bound that is reached is the maximum.
pub proof fn lemma_seq_max_is(s: Seq<int>, m: int, k: int)
    requires
        forall|i: int| 0 <= i < s.len() ==> s[i] <= m,
        0 <= k < s.len(),
        s[k] == m,
    ensures
        seq_max(s) == m,
{
    lemma_seq_max(s);
    let j = choose|j: int| 0 <= j < s.len() && s[j] == seq_max(s);
    assert(s[k] <= seq_max(s));
    assert(s[j] <= m);
}

/// Every offset of a well-formed shape lies inside its bounding box.
pub proof fn lemma_offsets_in_box(c: Shape)
    requires
        shape_wf(c),
    ensures
        forall|k: int| 0 <= k < c.len() ==> (#[trigger] c[k]).0.x < width(c) && c[k].0.y < height(c),
{
    lemma_seq_max(xs(c));
    lemma_seq_max(ys(c));
    assert forall|k: int| 0 <= k < c.len() implies (#[trigger] c[k]).0.x < width(c) && c[k].0.y < height(c) by {
        assert(xs(c)[k] == c[k].0.x);
        assert(ys(c)[k] == c[k].0.y);
    }
}

/// Transposing keeps a shape well formed and swaps its width and height.
pub proof fn lemma_transpose(c: Shape)
    requires
        shape_wf(c),
    ensures
        shape_wf(transpose(c)),
        width(transpose(c)) == height(c),
        height(transpose(c)) == width(c),
{
    let t = transpose(c);
    assert(xs(t) =~= ys(c));
    assert(ys(t) =~= xs(c));
    assert forall|i: int, j: int| 0 <= i < t.len() && 0 <= j < t.len() && i != j
        implies #[trigger] t[i].0 != #[trigger] t[j].0 by {
        assert(c[i].0 != c[j].0);
    }
    let kx = choose|i: int| 0 <= i < c.len() && (#[trigger] c[i]).0.x == 0;
    let ky = choose|i: int| 0 <= i < c.len() && (#[trigger] c[i]).0.y == 0;
    assert(t[ky].0.x == 0);
    assert(t[kx].0.y == 0);
}

/// Mirroring keeps a well-formed shape well formed, with the same bounding box.
pub proof fn lemma_mirror(c: Shape)
    requires
        shape_wf(c),
    ensures
        shape_wf(mirror(c)),
        width(mirror(c)) == width(c),
        height(mirror(c)) == height(c),
{
    let m = mirror(c);
    let mx = seq_max(xs(c));
    let my = seq_max(ys(c));
    lemma_seq_max(xs(c));
    lemma_seq_max(ys(c));
    assert forall|i: int| 0 <= i < c.len() implies c[i].0.x <= mx && c[i].0.y <= my by {
        assert(xs(c)[i] == c[i].0.x);
        assert(ys(c)[i] == c[i].0.y);
    }
    let ax = choose|i: int| 0 <= i < xs(c).len() && xs(c)[i] == mx;
    let ay = choose|i: int| 0 <= i < ys(c).len() && ys(c)[i] == my;
    let zx = choose|i: int| 0 <= i < c.len() && (#[trigger] c[i]).0.x == 0;
    let zy = choose|i: int| 0 <= i < c.len() && (#[trigger] c[i]).0.y == 0;
    assert forall|i: int| 0 <= i < m.len() implies #[trigger] m[i].0.x == mx - c[i].0.x
        && m[i].0.y == my - c[i].0.y && m[i].1 == c[i].1 by {
        assert(c[i].0.x <= mx && c[i].0.y <= my);
    }
    assert forall|i: int| 0 <= i < xs(m).len() implies xs(m)[i] <= mx by {
        assert(xs(m)[i] == m[i].0.x);
    }
    assert(xs(m)[zx] == mx);
    lemma_seq_max_is(xs(m), mx, zx);
    assert forall|i: int| 0 <= i < ys(m).len() implies ys(m)[i] <= my by {
        assert(ys(m)[i] == m[i].0.y);
    }
    assert(ys(m)[zy] == my);
    lemma_seq_max_is(ys(m), my, zy);
    assert forall|i: int, j: int| 0 <= i < m.len() && 0 <= j < m.len() && i != j
        implies #[trigger] m[i].0 != #[trigger] m[j].0 by {
        assert(c[i].0 != c[j].0);
    }
    assert(m[ax].0.x == 0);
    assert(m[ay].0.y == 0);
}

/// Turning keeps a shape well formed; the bounding box is transposed exactly
/// when the two rotations differ in parity.
pub proof fn lemma_turn(c: Shape, from: Rotation, to: Rotation)
    requires
        shape_wf(c),
    ensures
        shape_wf(turn(c, from, to)),
        transposes(from, to) ==> width(turn(c, from, to)) == height(c)
            && height(turn(c, from, to)) == width(c),
        !transposes(from, to) ==> width(turn(c, from, to)) == width(c)
            && height(turn(c, from, to)) == height(c),
{
    let t = if transposes(from, to) { transpose(c) } else { c };
    if transposes(from, to) {
        lemma_transpose(c);
    }
    if mirrors(from, to) {
        lemma_mirror(t);
    }
}

/// A ship: its score, its current rotation, and its components.
pub struct Ship {
    points: u64,
    rotation: Rotation,
    components: Vec<(Vec2, u64)>,
}

impl Ship {
    pub closed spec fn spec_points(&self) -> u64 {
        self.points
    }

    pub closed spec fn spec_rotation(&self) -> Rotation {
        self.rotation
    }

    pub closed spec fn shape(&self) -> Shape {
        self.components@
    }

    pub open spec fn wf(&self) -> bool {
        shape_wf(self.shape())
    }

    pub fn new(points: u64, rotation: Rotation, components: Vec<(Vec2, u64)>) -> (r: Ship)
        requires
            shape_wf(components@),
        ensures
            r.spec_points() == points,
            r.spec_rotation() == rotation,
            r.shape() == components@,
            r.wf(),
    {
        Ship { points, rotation, components }
    }

    /// The carrier: nine cells, worth 11 points, unrotated.
    pub fn new_aircraft_carrier() -> (r: Ship)
        ensures
            r.spec_points() == 11,
            r.spec_rotation() == Rotation::Left,
            r.shape() == carrier_shape(),
            r.wf(),
    {
        let mut components: Vec<(Vec2, u64)> = Vec::new();
        components.push((Vec2::new(2, 0), 1));
        components.push((Vec2::new(3, 0), 1));
        components.push((Vec2::new(0, 1), 1));
        components.push((Vec2::new(1, 1), 1));
        components.push((Vec2::new(2, 1), 2));
        components.push((Vec2::new(3, 1), 2));
        components.push((Vec2::new(4, 1), 1));
        components.push((Vec2::new(2, 2), 1));
        components.push((Vec2::new(3, 2), 1));
        assert(components@ =~= carrier_shape());
        assert(components@[2].0.x == 0);
        assert(components@[0].0.y == 0);
        Self::new(11, Rotation::Left, components)
    }

    /// The cruiser: six cells, worth 8 points, unrotated.
    pub fn new_cruiser() -> (r: Ship)
        ensures
            r.spec_points() == 8,
            r.spec_rotation() == Rotation::Left,
            r.shape() == cruiser_shape(),
            r.wf(),
    {
        let mut components: Vec<(Vec2, u64)> = Vec::new();
        components.push((Vec2::new(0, 0), 1));
        components.push((Vec2::new(1, 0), 2));
        components.push((Vec2::new(2, 0), 1));
        components.push((Vec2::new(0, 1), 1));
        components.push((Vec2::new(1, 1), 2));
        components.push((Vec2::new(2, 1), 1));
        assert(components@ =~= cruiser_shape());
        assert(components@[0].0.x == 0);
        Self::new(8, Rotation::Left, components)
    }

    /// The minesweeper: four cells in a row, worth 5 points, unrotated.
    pub fn new_minesweeper() -> (r: Ship)
        ensures
            r.spec_points() == 5,
            r.spec_rotation() == Rotation::Left,
            r.shape() == minesweeper_shape(),
            r.wf(),
    {
        let mut components: Vec<(Vec2, u64)> = Vec::new();
        components.push((Vec2::new(0, 0), 1));
        components.push((Vec2::new(1, 0), 1));
        components.push((Vec2::new(2, 0), 2));
        components.push((Vec2::new(3, 0), 1));
        assert(components@ =~= minesweeper_shape());
        assert(components@[0].0.x == 0);
        Self::new(5, Rotation::Left, components)
    }

    /// Turns the ship to `rotation`; turning to the current rotation changes nothing.
    pub fn rotate(self, rotation: Rotation) -> (r: Ship)
        requires
            self.wf(),
        ensures
            r.spec_points() == self.spec_points(),
            r.spec_rotation() == rotation,
            r.shape() == turn(self.shape(), self.spec_rotation(), rotation),
            r.wf(),
    {
        proof {
            lemma_turn(self.shape(), self.rotation, rotation);
        }
        let Ship { points, rotation: current, components } = self;
        if rotation == current {
            return Ship { points, rotation, components };
        }
        let raw = if rotation.value() % 2 != current.value() % 2 {
            transpose_components(&components)
        } else {
            components
        };
        let turned = if rotation.direction() != current.direction() {
            proof {
                if transposes(current, rotation) {
                    lemma_transpose(components@);
                }
            }
            mirror_components(&raw)
        } else {
            raw
        };
        Ship { points, rotation, components: turned }
    }

    pub fn points(&self) -> (r: u64)
        ensures
            r == self.spec_points(),
    {
        self.points
    }

    pub fn rotation(&self) -> (r: Rotation)
        ensures
            r == self.spec_rotation(),
    {
        self.rotation
    }

    /// The bounding box of the components.
    pub fn size(&self) -> (r: Vec2)
        requires
            self.wf(),
        ensures
            r.x == width(self.shape()),
            r.y == height(self.shape()),
    {
        Self::size_of_components(&self.components)
    }

    /// Number of critical (value 2) components.
    pub fn remaining_important_points(&self) -> (r: u64)
        ensures
            r == critical_count(self.shape()),
    {
        let mut counter: u64 = 0;
        let mut i: usize = 0;
        while i < self.components.len()
            invariant
                i <= self.components@.len(),
                counter == critical_count(self.components@.take(i as int)),
                counter <= i,
            decreases self.components@.len() - i,
        {
            assert(self.components@.take(i as int + 1).drop_last() =~= self.components@.take(i as int));
            if self.components[i].1 == 2 {
                counter = counter + 1;
            }
            i = i + 1;
        }
        assert(self.components@.take(i as int) =~= self.components@);
        counter
    }

    pub fn components(&self) -> (r: &Vec<(Vec2, u64)>)
        ensures
            r@ == self.shape(),
    {
        &self.components
    }

    /// The glyph of a damage value; `show_ones` and `show_zeros` off turn the
    /// glyphs of 1 and 0 into a blank.
    pub fn value_to_char(value: u64, show_ones: bool, show_zeros: bool) -> (r: char)
        ensures
            r == glyph(value, show_ones, show_zeros),
    {
        match value {
            0 => {
                if show_zeros {
                    '-'
                } else {
                    '\0'
                }
            },
            1 => {
                if show_ones {
                    '*'
                } else {
                    '\0'
                }
            },
            2 => 'x',
            3 => '+',
            4 => 'o',
            _ => '\0',
        }
    }

    fn size_of_components(components: &Vec<(Vec2, u64)>) -> (r: Vec2)
        requires
            shape_wf(components@),
        ensures
            r.x == width(components@),
            r.y == height(components@),
    {
        let c = Ghost(components@);
        let mut max_x: u64 = components[0].0.x;
        let mut max_y: u64 = components[0].0.y;
        let mut i: usize = 1;
        assert(xs(c@).take(1) =~= seq![c@[0].0.x as int]);
        assert(ys(c@).take(1) =~= seq![c@[0].0.y as int]);
        while i < components.len()
            invariant
                c@ == components@,
                shape_wf(c@),
                1 <= i <= c@.len(),
                max_x == seq_max(xs(c@).take(i as int)),
                max_y == seq_max(ys(c@).take(i as int)),
            decreases c@.len() - i,
        {
            assert(xs(c@).take(i as int + 1).drop_last() =~= xs(c@).take(i as int));
            assert(ys(c@).take(i as int + 1).drop_last() =~= ys(c@).take(i as int));
            if components[i].0.x > max_x {
                max_x = components[i].0.x;
            }
            if components[i].0.y > max_y {
                max_y = components[i].0.y;
            }
            i = i + 1;
        }
        assert(xs(c@).take(i as int) =~= xs(c@));
        assert(ys(c@).take(i as int) =~= ys(c@));
        proof {
            lemma_seq_max(xs(c@));
            lemma_seq_max(ys(c@));
            let kx = choose|k: int| 0 <= k < xs(c@).len() && xs(c@)[k] == seq_max(xs(c@));
            let ky = choose|k: int| 0 <= k < ys(c@).len() && ys(c@)[k] == seq_max(ys(c@));
            assert(c@[kx].0.x < u64::MAX);
            assert(c@[ky].0.y < u64::MAX);
        }
        Vec2::new(max_x + 1, max_y + 1)
    }
}

fn transpose_components(components: &Vec<(Vec2, u64)>) -> (r: Vec<(Vec2, u64)>)
    ensures
        r@ == transpose(components@),
{
    let mut out: Vec<(Vec2, u64)> = Vec::new();
    let mut i: usize = 0;
    while i < components.len()
        invariant
            i <= components@.len(),
            out@ =~= transpose(components@).take(i as int),
        decreases components@.len() - i,
    {
        let (v, value) = components[i];
        out.push((v.swap(), value));
        i = i + 1;
    }
    assert(transpose(components@).take(i as int) =~= transpose(components@));
    out
}

fn mirror_components(components: &Vec<(Vec2, u64)>) -> (r: Vec<(Vec2, u64)>)
    requires
        shape_wf(components@),
    ensures
        r@ == mirror(components@),
{
    let size = Ship::size_of_components(components);
    let bound = Vec2::new(size.x() - 1, size.y() - 1);
    let mut out: Vec<(Vec2, u64)> = Vec::new();
    let mut i: usize = 0;
    proof {
        lemma_seq_max(xs(components@));
        lemma_seq_max(ys(components@));
    }
    while i < components.len()
        invariant
            i <= components@.len(),
            bound.x == seq_max(xs(components@)),
            bound.y == seq_max(ys(components@)),
            forall|k: int| 0 <= k < xs(components@).len() ==> xs(components@)[k] <= bound.x,
            forall|k: int| 0 <= k < ys(components@).len() ==> ys(components@)[k] <= bound.y,
            out@ =~= mirror(components@).take(i as int),
        decreases components@.len() - i,
    {
        let (v, value) = components[i];
        assert(xs(components@)[i as int] == v.x);
        assert(ys(components@)[i as int] == v.y);
        out.push((Vec2::new(bound.x() - v.x(), bound.y() - v.y()), value));
        i = i + 1;
    }
    assert(mirror(components@).take(i as int) =~= mirror(components@));
    out
}

/// Transposing twice gives the shape back.
pub proof fn lemma_transpose_twice(c: Shape)
    ensures
        transpose(transpose(c)) == c,
{
    assert(transpose(transpose(c)) =~= c);
}

/// Mirroring a well-formed shape twice gives it back.
pub proof fn lemma_mirror_twice(c: Shape)
    requires
        shape_wf(c),
    ensures
        mirror(mirror(c)) == c,
{
    lemma_mirror(c);
    lemma_offsets_in_box(c);
    let m = mirror(c);
    lemma_seq_max(xs(c));
    lemma_seq_max(ys(c));
    let kx = choose|k: int| 0 <= k < xs(c).len() && xs(c)[k] == seq_max(xs(c));
    let ky = choose|k: int| 0 <= k < ys(c).len() && ys(c)[k] == seq_max(ys(c));
    assert(c[kx].0.x < u64::MAX && c[ky].0.y < u64::MAX);
    assert forall|i: int| 0 <= i < c.len() implies #[trigger] mirror(m)[i] == c[i] by {
        assert(c[i].0.x < width(c) && c[i].0.y < height(c));
        assert(m[i].0.x == seq_max(xs(c)) - c[i].0.x);
        assert(m[i].0.y == seq_max(ys(c)) - c[i].0.y);
    }
    assert(mirror(m) =~= c);
}

/// Mirroring and transposing a well-formed shape commute.
pub proof fn lemma_mirror_transpose(c: Shape)
    requires
        shape_wf(c),
    ensures
        mirror(transpose(c)) == transpose(mirror(c)),
{
    lemma_transpose(c);
    lemma_offsets_in_box(c);
    assert(xs(transpose(c)) =~= ys(c));
    assert(ys(transpose(c)) =~= xs(c));
    assert(mirror(transpose(c)) =~= transpose(mirror(c)));
}

/// Turning from `a` to `b` and then from `b` to `d` gives the shape that
/// turning from `a` straight to `d` gives: a ship's shape depends only on
/// where it started and which rotation it ends at.
pub proof fn lemma_turn_compose(c: Shape, a: Rotation, b: Rotation, d: Rotation)
    requires
        shape_wf(c),
    ensures
        turn(turn(c, a, b), b, d) == turn(c, a, d),
{
    let t = transpose(c);
    let m = mirror(c);
    lemma_transpose(c);
    lemma_mirror(c);
    lemma_transpose_twice(c);
    lemma_transpose_twice(m);
    lemma_mirror_twice(c);
    lemma_mirror_twice(t);
    lemma_mirror_transpose(c);
    lemma_mirror_transpose(t);
    lemma_mirror_transpose(m);
    lemma_transpose(m);
    lemma_mirror(t);
    lemma_transpose_twice(mirror(t));
    lemma_mirror_twice(transpose(m));
}

/// Turning a ship to the rotation it already has changes nothing, so turning
/// to the same rotation twice is the same as turning once.
pub proof fn lemma_turn_idempotent(c: Shape, from: Rotation, to: Rotation)
    ensures
        turn(c, to, to) == c,
        turn(turn(c, from, to), to, to) == turn(c, from, to),
{
}

} // verus!
