use vstd::prelude::*;
use crate::animation::AnimationConfig;

verus! {

/// Largest magnitude of a configured coordinate, in millionths of a unit.
pub const COORD_LIMIT: i64 = 1_000_000_000_000_000;

/// Smallest world distance of one marker label step: one unit.
pub const MIN_LABEL_UNIT: i64 = 1_000_000;

/// Largest distance a lane scrolls in one frame, in millionths of a unit.
pub const MAX_SHIFT: i64 = 2_000_000_000_000;

#[derive(Clone, Copy, Debug, PartialEq, Eq, Structural)]
pub enum GroundType {
    Dirt,
    Grass,
    Water,
}

#[derive(Clone, Copy, Debug, PartialEq, Eq, Structural)]
pub enum EnemyType {
    Eagle,
    Lion,
    Croco,
}

/// What an entity of a lane is.
#[derive(Clone, Copy, Debug, PartialEq, Eq, Structural)]
pub enum EntityKind {
    Ground(GroundType),
    Enemy(EnemyType),
    /// A distance marker with its label, in thousands of units.
    Marker(u64),
}

/// Which kind set a lane draws from.
#[derive(Clone, Copy, Debug, PartialEq, Eq, Structural)]
pub enum LaneRole {
    Ground,
    Obstacle,
    Marker,
}

/// Distance from the rightmost entity to the next one.
#[derive(Clone, Copy, Debug, PartialEq, Eq, Structural)]
pub enum Spacing {
    Fixed(i64),
    /// Drawn uniformly from `min_gap..=max_gap`.
    Uniform { min_gap: i64, max_gap: i64 },
}

/// Parameters of one lane. Coordinates are in millionths of a unit.
#[derive(Clone, Copy, Debug, PartialEq, Eq, Structural)]
pub struct LaneConfig {
    pub role: LaneRole,
    pub spacing: Spacing,
    pub view_left: i64,
    pub view_right: i64,
    pub half_width: i64,
    /// Where the first entity of an empty lane stands.
    pub initial_x: i64,
    pub base_y: i64,
    /// Height of flying obstacles.
    pub raised_y: i64,
    /// World position from which marker distances are counted.
    pub label_origin: i64,
    /// World distance of one marker label step.
    pub label_unit: i64,
}

/// The random choices behind one spawn: an index into the lane's kind set
/// and, for uniform spacing, the gap.
#[derive(Clone, Copy, Debug, PartialEq, Eq, Structural)]
pub struct LaneDraw {
    pub kind_index: u64,
    pub gap: i64,
}

#[derive(Clone, Copy, Debug, PartialEq, Eq, Structural)]
pub struct LaneEntity {
    pub x: i64,
    pub y: i64,
    pub kind: EntityKind,
    pub animation: Option<AnimationConfig>,
}

pub open spec fn in_coord_range(v: int) -> bool {
    -COORD_LIMIT <= v <= COORD_LIMIT
}

impl LaneConfig {
    /// Entities are spawned while the rightmost stands left of this.
    pub open spec fn spawn_threshold(self) -> int {
        self.view_right - self.half_width
    }

    /// Entities left of this are removed.
    pub open spec fn despawn_x(self) -> int {
        self.view_left - self.half_width
    }

    pub open spec fn view_width(self) -> int {
        self.view_right - self.view_left
    }

    pub open spec fn min_step(self) -> int {
        match self.spacing {
            Spacing::Fixed(s) => s as int,
            Spacing::Uniform { min_gap, .. } => min_gap as int,
        }
    }

    pub open spec fn max_step(self) -> int {
        match self.spacing {
            Spacing::Fixed(s) => s as int,
            Spacing::Uniform { max_gap, .. } => max_gap as int,
        }
    }

    /// No entity of the lane ever stands right of this.
    pub open spec fn x_limit(self) -> int {
        if self.initial_x > self.spawn_threshold() + self.max_step() {
            self.initial_x as int
        } else {
            self.spawn_threshold() + self.max_step()
        }
    }

    pub open spec fn kind_count(self) -> nat {
        match self.role {
            LaneRole::Marker => 1,
            _ => 3,
        }
    }

    pub open spec fn wf(self) -> bool {
        &&& in_coord_range(self.view_left as int)
        &&& in_coord_range(self.view_right as int)
        &&& in_coord_range(self.initial_x as int)
        &&& in_coord_range(self.base_y as int)
        &&& in_coord_range(self.raised_y as int)
        &&& in_coord_range(self.label_origin as int)
        &&& 0 <= self.half_width <= COORD_LIMIT
        &&& self.view_left < self.view_right
        &&& 0 < self.min_step() <= self.max_step() <= COORD_LIMIT
        &&& self.initial_x >= self.despawn_x()
        &&& MIN_LABEL_UNIT <= self.label_unit <= COORD_LIMIT
    }

    /// `draw` can come from this lane's kind picker and gap distribution.
    pub open spec fn draw_fits(self, draw: LaneDraw) -> bool {
        &&& draw.kind_index < self.kind_count()
        &&& (self.spacing matches Spacing::Uniform { min_gap, max_gap } ==> min_gap <= draw.gap <= max_gap)
    }
}

pub open spec fn ground_type_at(i: u64) -> GroundType {
    if i == 0 {
        GroundType::Dirt
    } else if i == 1 {
        GroundType::Grass
    } else {
        GroundType::Water
    }
}

pub open spec fn enemy_type_at(i: u64) -> EnemyType {
    if i == 0 {
        EnemyType::Eagle
    } else if i == 1 {
        EnemyType::Lion
    } else {
        EnemyType::Croco
    }
}

/// `distance / unit` rounded half up; zero for distances that are not positive.
pub open spec fn marker_label(distance: int, unit: int) -> int {
    if distance <= 0 {
        0
    } else {
        (2 * distance + unit) / (2 * unit)
    }
}

/// Distance from the rightmost entity to the new one: fixed, or the drawn gap.
pub open spec fn step_of(cfg: LaneConfig, draw: LaneDraw) -> int {
    match cfg.spacing {
        Spacing::Fixed(s) => s as int,
        Spacing::Uniform { .. } => draw.gap as int,
    }
}

/// Where a new entity stands: one step right of the rightmost, or at the
/// initial position in an empty lane.
pub open spec fn spawn_x(cfg: LaneConfig, anchor: Option<int>, draw: LaneDraw) -> int {
    match anchor {
        None => cfg.initial_x as int,
        Some(r) => r + step_of(cfg, draw),
    }
}

pub open spec fn kind_for(cfg: LaneConfig, draw: LaneDraw, x: int, score: int) -> EntityKind {
    match cfg.role {
        LaneRole::Ground => EntityKind::Ground(ground_type_at(draw.kind_index)),
        LaneRole::Obstacle => EntityKind::Enemy(enemy_type_at(draw.kind_index)),
        LaneRole::Marker => EntityKind::Marker(
            marker_label(x - cfg.label_origin + score, cfg.label_unit as int) as u64,
        ),
    }
}

/// Vertical position of an entity of kind `kind`: flying obstacles stand higher.
pub open spec fn y_for(cfg: LaneConfig, kind: EntityKind) -> int {
    if kind == EntityKind::Enemy(EnemyType::Eagle) {
        cfg.raised_y as int
    } else {
        cfg.base_y as int
    }
}

/// Obstacles carry a single-frame sprite clock; other entities none.
pub open spec fn animation_for(kind: EntityKind) -> Option<AnimationConfig> {
    match kind {
        EntityKind::Enemy(_) => Some(
            AnimationConfig {
                first_sprite_index: 0,
                last_sprite_index: 0,
                fps: 1,
                elapsed_ms: 0,
                index: 0,
            },
        ),
        _ => None,
    }
}

/// The entity spawned with `draw` next to `anchor` while the score is `score`.
pub open spec fn spawned(cfg: LaneConfig, anchor: Option<int>, draw: LaneDraw, score: int) -> LaneEntity {
    let x = spawn_x(cfg, anchor, draw);
    let kind = kind_for(cfg, draw, x, score);
    LaneEntity { x: x as i64, y: y_for(cfg, kind) as i64, kind, animation: animation_for(kind) }
}

/// Whether `kind` belongs to the kind set of `role`.
pub open spec fn kind_in_role(role: LaneRole, kind: EntityKind) -> bool {
    match role {
        LaneRole::Ground => kind is Ground,
        LaneRole::Obstacle => kind is Enemy,
        LaneRole::Marker => kind is Marker,
    }
}

/// An entity as the lane's spawn rule makes it.
pub open spec fn entity_fits(cfg: LaneConfig, e: LaneEntity) -> bool {
    &&& kind_in_role(cfg.role, e.kind)
    &&& e.y == y_for(cfg, e.kind)
    &&& clock_fits(e.kind, e.animation)
}

/// Obstacles carry a running single-frame clock; other entities none.
pub open spec fn clock_fits(kind: EntityKind, animation: Option<AnimationConfig>) -> bool {
    match animation {
        None => !(kind is Enemy),
        Some(c) => {
            &&& kind is Enemy
            &&& c.wf()
            &&& c.first_sprite_index == 0
            &&& c.last_sprite_index == 0
            &&& c.fps == 1
            &&& c.index == 0
        },
    }
}

/// An entity whose sprite clock, if any, ran `dt_ms` more milliseconds.
pub open spec fn ticked_entity(e: LaneEntity, dt_ms: int) -> LaneEntity {
    match e.animation {
        Some(a) => LaneEntity { animation: Some(a.ticked(dt_ms)), ..e },
        None => e,
    }
}

pub open spec fn ticked_lane(s: Seq<LaneEntity>, dt_ms: int) -> Seq<LaneEntity> {
    s.map_values(|e: LaneEntity| ticked_entity(e, dt_ms))
}

pub open spec fn abs_diff(a: int, b: int) -> int {
    if a >= b {
        a - b
    } else {
        b - a
    }
}

/// Whether a point is closer than `radius` to an entity's centre on both axes.
pub open spec fn in_contact(x: int, y: int, e: LaneEntity, radius: int) -> bool {
    abs_diff(x, e.x as int) < radius && abs_diff(y, e.y as int) < radius
}

/// Whether a point is in contact with some entity of the lane.
pub open spec fn touches(s: Seq<LaneEntity>, x: int, y: int, radius: int) -> bool {
    exists|i: int| 0 <= i < s.len() && in_contact(x, y, #[trigger] s[i], radius)
}

pub open spec fn as_int(o: Option<i64>) -> Option<int> {
    match o {
        Some(v) => Some(v as int),
        None => None,
    }
}

/// The rightmost position of a lane kept in spawn order, if any.
pub open spec fn rightmost(s: Seq<LaneEntity>) -> Option<int> {
    if s.len() == 0 {
        None
    } else {
        Some(s.last().x as int)
    }
}

pub open spec fn needs_spawn(cfg: LaneConfig, anchor: Option<int>) -> bool {
    match anchor {
        None => true,
        Some(r) => r < cfg.spawn_threshold(),
    }
}

/// The lane after every entity moved `shift` to the left.
pub open spec fn scrolled(s: Seq<LaneEntity>, shift: int) -> Seq<LaneEntity> {
    s.map_values(|e: LaneEntity| LaneEntity { x: (e.x - shift) as i64, ..e })
}

pub open spec fn on_or_right_of(left: int) -> spec_fn(LaneEntity) -> bool {
    |e: LaneEntity| e.x >= left
}

/// The lane after one spawn decision: with the spawned entity when the rule fires.
pub open spec fn with_spawn(s: Seq<LaneEntity>, cfg: LaneConfig, draw: LaneDraw, score: int) -> Seq<LaneEntity> {
    if needs_spawn(cfg, rightmost(s)) {
        s.push(spawned(cfg, rightmost(s), draw, score))
    } else {
        s
    }
}

/// One running frame of the conveyor: scroll, spawn, despawn.
pub open spec fn advanced(
    s: Seq<LaneEntity>,
    cfg: LaneConfig,
    shift: int,
    draw: LaneDraw,
    score: int,
) -> Seq<LaneEntity> {
    with_spawn(scrolled(s, shift), cfg, draw, score).filter(on_or_right_of(cfg.despawn_x()))
}

/// Entity `i + 1` stands between `lo` and `hi` right of entity `i`.
pub open spec fn spaced(s: Seq<LaneEntity>, i: int, lo: int, hi: int) -> bool {
    lo <= s[i + 1].x - s[i].x <= hi
}

/// The layout a lane keeps between steps, except the left boundary:
/// - in spawn order, each entity between one minimal and one maximal step right of the one before;
/// - all but the rightmost left of the spawn threshold;
/// - nothing right of the lane's limit, nor far left of its despawn boundary;
/// - every entity as the spawn rule makes it.
pub open spec fn lane_shape(s: Seq<LaneEntity>, cfg: LaneConfig) -> bool {
    &&& forall|i: int| 0 <= i < s.len() - 1 ==> #[trigger] spaced(s, i, cfg.min_step(), cfg.max_step())
    &&& forall|i: int| 0 <= i < s.len() - 1 ==> (#[trigger] s[i]).x < cfg.spawn_threshold()
    &&& forall|i: int| 0 <= i < s.len() ==> (#[trigger] s[i]).x <= cfg.x_limit()
    &&& forall|i: int| 0 <= i < s.len() ==> (#[trigger] s[i]).x >= cfg.despawn_x() - MAX_SHIFT
    &&& forall|i: int| 0 <= i < s.len() ==> entity_fits(cfg, #[trigger] s[i])
}

/// The layout a lane keeps between frames: its shape, and nothing left of the
/// despawn boundary.
pub open spec fn lane_wf(s: Seq<LaneEntity>, cfg: LaneConfig) -> bool {
    &&& lane_shape(s, cfg)
    &&& forall|i: int| 0 <= i < s.len() ==> (#[trigger] s[i]).x >= cfg.despawn_x()
}

/// Entity `i` stands `i` steps of `step` right of `start`.
pub open spec fn on_grid(s: Seq<LaneEntity>, start: int, step: int) -> bool {
    forall|i: int| 0 <= i < s.len() ==> #[trigger] s[i].x == start + i * step
}

/// No visible gap: the rightmost entity stands at or right of the spawn threshold.
pub open spec fn covered(s: Seq<LaneEntity>, cfg: LaneConfig) -> bool {
    s.len() > 0 && s.last().x >= cfg.spawn_threshold()
}


/// In a lane of this shape each entity stands at least `j - i` minimal steps
/// right of entity `i`.
pub proof fn lemma_spread(s: Seq<LaneEntity>, cfg: LaneConfig, i: int, j: int)
    requires
        lane_shape(s, cfg),
        0 <= i <= j < s.len(),
    ensures
        s[j].x - s[i].x >= (j - i) * cfg.min_step(),
    decreases j - i,
{
    if i < j {
        lemma_spread(s, cfg, i, j - 1);
        assert(s[j].x - s[j - 1].x >= cfg.min_step()) by {
            assert(spaced(s, j - 1, cfg.min_step(), cfg.max_step()));
        }
        assert((j - i) * cfg.min_step() == (j - 1 - i) * cfg.min_step() + cfg.min_step())
            by (nonlinear_arith);
    } else {
        assert((j - i) * cfg.min_step() == 0) by (nonlinear_arith)
            requires i == j;
    }
}

/// The rightmost entity, the last spawned, stands right of all others.
pub proof fn lemma_rightmost_is_max(s: Seq<LaneEntity>, cfg: LaneConfig)
    requires
        cfg.wf(),
        lane_shape(s, cfg),
    ensures
        forall|i: int| 0 <= i < s.len() ==> s[i].x <= s.last().x,
{
    assert forall|i: int| 0 <= i < s.len() implies s[i].x <= s.last().x by {
        lemma_spread(s, cfg, i, s.len() - 1);
        assert((s.len() - 1 - i) * cfg.min_step() >= 0) by (nonlinear_arith)
            requires s.len() - 1 - i >= 0, cfg.min_step() > 0;
    }
}

/// Keeping the entities at or right of `left` drops exactly a prefix that
/// lies left of it.
proof fn lemma_filter_prefix(s: Seq<LaneEntity>, left: int, k: int)
    requires
        0 <= k <= s.len(),
        forall|i: int| 0 <= i < k ==> (#[trigger] s[i]).x < left,
        forall|i: int| k <= i < s.len() ==> (#[trigger] s[i]).x >= left,
    ensures
        s.filter(on_or_right_of(left)) == s.skip(k),
    decreases s.len(),
{
    reveal(Seq::filter);
    if s.len() == 0 {
        assert(s.skip(k) =~= s);
    } else if k == s.len() {
        lemma_filter_prefix(s.drop_last(), left, k - 1);
        assert(!on_or_right_of(left)(s.last()));
        assert(s.skip(k) =~= s.drop_last().skip(k - 1));
    } else {
        lemma_filter_prefix(s.drop_last(), left, k);
        assert(on_or_right_of(left)(s.last()));
        assert(s.skip(k) =~= s.drop_last().skip(k).push(s.last()));
    }
}

/// An ordered lane of entities, in spawn order.
pub struct Lane {
    pub entities: Vec<LaneEntity>,
}

impl View for Lane {
    type V = Seq<LaneEntity>;

    open spec fn view(&self) -> Seq<LaneEntity> {
        self.entities@
    }
}

impl LaneConfig {
    fn spawn_edge(&self) -> (r: i64)
        requires
            self.wf(),
        ensures
            r == self.spawn_threshold(),
    {
        self.view_right - self.half_width
    }

    fn despawn_edge(&self) -> (r: i64)
        requires
            self.wf(),
        ensures
            r == self.despawn_x(),
    {
        self.view_left - self.half_width
    }
}

fn ground_type_from(i: u64) -> (r: GroundType)
    ensures
        r == ground_type_at(i),
{
    if i == 0 {
        GroundType::Dirt
    } else if i == 1 {
        GroundType::Grass
    } else {
        GroundType::Water
    }
}

fn enemy_type_from(i: u64) -> (r: EnemyType)
    ensures
        r == enemy_type_at(i),
{
    if i == 0 {
        EnemyType::Eagle
    } else if i == 1 {
        EnemyType::Lion
    } else {
        EnemyType::Croco
    }
}

/// The label of a marker at `x` while the score is `score`.
pub fn label_at(cfg: &LaneConfig, x: i64, score: u64) -> (r: u64)
    requires
        cfg.wf(),
    ensures
        r == marker_label(x - cfg.label_origin + score, cfg.label_unit as int),
{
    let d: i128 = x as i128 - cfg.label_origin as i128 + score as i128;
    if d <= 0 {
        0
    } else {
        let unit: i128 = cfg.label_unit as i128;
        let q: i128 = (2 * d + unit) / (2 * unit);
        assert(q <= d / 2 + 1) by (nonlinear_arith)
            requires q == (2 * d + unit) / (2 * unit), unit >= 2, d > 0;
        q as u64
    }
}

/// The entity that the spawn rule places with `draw` next to `anchor`.
pub fn spawn_entity(cfg: &LaneConfig, anchor: Option<i64>, draw: LaneDraw, score: u64) -> (r: LaneEntity)
    requires
        cfg.wf(),
        cfg.draw_fits(draw),
        anchor matches Some(a) ==> cfg.despawn_x() - MAX_SHIFT <= a < cfg.spawn_threshold(),
    ensures
        r == spawned(*cfg, as_int(anchor), draw, score as int),
{
    let x: i64 = match anchor {
        None => cfg.initial_x,
        Some(a) => match cfg.spacing {
            Spacing::Fixed(s) => a + s,
            Spacing::Uniform { .. } => a + draw.gap,
        },
    };
    let kind = match cfg.role {
        LaneRole::Ground => EntityKind::Ground(ground_type_from(draw.kind_index)),
        LaneRole::Obstacle => EntityKind::Enemy(enemy_type_from(draw.kind_index)),
        LaneRole::Marker => EntityKind::Marker(label_at(cfg, x, score)),
    };
    let y: i64 = match kind {
        EntityKind::Enemy(EnemyType::Eagle) => cfg.raised_y,
        _ => cfg.base_y,
    };
    let animation = match kind {
        EntityKind::Enemy(_) => Some(AnimationConfig::new(0, 0, 1)),
        _ => None,
    };
    LaneEntity { x, y, kind, animation }
}

impl Lane {
    /// A lane holding its single canonical first entity.
    pub fn new(cfg: &LaneConfig, draw: LaneDraw, score: u64) -> (r: Lane)
        requires
            cfg.wf(),
            cfg.draw_fits(draw),
        ensures
            r@ == seq![spawned(*cfg, None, draw, score as int)],
            r@[0].x == cfg.initial_x,
            lane_wf(r@, *cfg),
    {
        let e = spawn_entity(cfg, None, draw, score);
        let mut entities: Vec<LaneEntity> = Vec::new();
        entities.push(e);
        let r = Lane { entities };
        assert(r@ =~= seq![e]);
        r
    }

    /// Clears the lane and puts its single canonical first entity back.
    pub fn reset(&mut self, cfg: &LaneConfig, draw: LaneDraw, score: u64)
        requires
            cfg.wf(),
            cfg.draw_fits(draw),
        ensures
            final(self)@ == seq![spawned(*cfg, None, draw, score as int)],
            final(self)@[0].x == cfg.initial_x,
            lane_wf(final(self)@, *cfg),
    {
        *self = Lane::new(cfg, draw, score);
    }

    pub fn len(&self) -> (r: usize)
        ensures
            r == self@.len(),
    {
        self.entities.len()
    }

    /// The position of the rightmost entity, the last spawned; `None` when empty.
    pub fn rightmost_x(&self) -> (r: Option<i64>)
        ensures
            as_int(r) == rightmost(self@),
    {
        let n = self.entities.len();
        if n == 0 {
            None
        } else {
            Some(self.entities[n - 1].x)
        }
    }

    /// Whether the spawn rule fires: the lane is empty or its rightmost
    /// entity stands left of the spawn threshold.
    pub fn needs_spawn(&self, cfg: &LaneConfig) -> (r: bool)
        requires
            cfg.wf(),
        ensures
            r == needs_spawn(*cfg, rightmost(self@)),
    {
        match self.rightmost_x() {
            None => true,
            Some(x) => x < cfg.spawn_edge(),
        }
    }

    /// Appends the entity that the spawn rule places next to the rightmost one.
    pub fn spawn(&mut self, cfg: &LaneConfig, draw: LaneDraw, score: u64)
        requires
            cfg.wf(),
            cfg.draw_fits(draw),
            lane_shape(old(self)@, *cfg),
            needs_spawn(*cfg, rightmost(old(self)@)),
        ensures
            final(self)@ == old(self)@.push(spawned(*cfg, rightmost(old(self)@), draw, score as int)),
            lane_shape(final(self)@, *cfg),
            lane_wf(old(self)@, *cfg) ==> lane_wf(final(self)@, *cfg),
    {
        let anchor = self.rightmost_x();
        if self.entities.len() > 0 {
            let ghost s = self@;
            assert(s[s.len() - 1].x >= cfg.despawn_x() - MAX_SHIFT);
        }
        let e = spawn_entity(cfg, anchor, draw, score);
        self.entities.push(e);
        proof {
            let s = old(self)@;
            let t = self@;
            assert(t[t.len() - 1] == e);
            assert forall|i: int| 0 <= i < t.len() implies entity_fits(*cfg, #[trigger] t[i]) by {
                if i < s.len() {
                    assert(t[i] == s[i]);
                }
            }
            assert forall|i: int| 0 <= i < t.len() - 1 implies #[trigger] spaced(t, i, cfg.min_step(), cfg.max_step()) by {
                assert(t[i] == s[i]);
                if i + 1 < s.len() {
                    assert(t[i + 1] == s[i + 1]);
                    assert(spaced(s, i, cfg.min_step(), cfg.max_step()));
                } else {
                    assert(t[i + 1] == e);
                }
            }
            assert(forall|i: int| 0 <= i < s.len() ==> (#[trigger] t[i]) == s[i]);
        }
    }

    /// Moves every entity `shift` to the left.
    fn scroll(&mut self, cfg: &LaneConfig, shift: i64)
        requires
            cfg.wf(),
            lane_wf(old(self)@, *cfg),
            0 <= shift <= MAX_SHIFT,
        ensures
            final(self)@ == scrolled(old(self)@, shift as int),
            lane_shape(final(self)@, *cfg),
    {
        let n = self.entities.len();
        let mut i: usize = 0;
        while i < n
            invariant
                cfg.wf(),
                lane_wf(old(self)@, *cfg),
                0 <= shift <= MAX_SHIFT,
                n == self@.len(),
                n == old(self)@.len(),
                0 <= i <= n,
                forall|j: int| 0 <= j < i ==> self@[j] == scrolled(old(self)@, shift as int)[j],
                forall|j: int| i <= j < n ==> self@[j] == old(self)@[j],
            decreases n - i,
        {
            let mut e = self.entities[i];
            assert(e == old(self)@[i as int]);
            e.x = e.x - shift;
            self.entities[i] = e;
            i = i + 1;
        }
        assert(self@ =~= scrolled(old(self)@, shift as int));
        proof {
            let s = old(self)@;
            let t = self@;
            assert(forall|j: int| 0 <= j < t.len() ==> (#[trigger] t[j]).x == s[j].x - shift);
            assert forall|j: int| 0 <= j < t.len() - 1 implies #[trigger] spaced(t, j, cfg.min_step(), cfg.max_step()) by {
                assert(spaced(s, j, cfg.min_step(), cfg.max_step()));
                assert(t[j + 1].x == s[j + 1].x - shift);
            }
            assert forall|j: int| 0 <= j < t.len() implies entity_fits(*cfg, #[trigger] t[j]) by {
                assert(entity_fits(*cfg, s[j]));
            }
        }
    }

    /// Removes every entity left of the despawn boundary.
    pub fn despawn(&mut self, cfg: &LaneConfig)
        requires
            cfg.wf(),
            lane_shape(old(self)@, *cfg),
        ensures
            final(self)@ == old(self)@.filter(on_or_right_of(cfg.despawn_x())),
            forall|i: int| 0 <= i < final(self)@.len() ==> (#[trigger] final(self)@[i]).x >= cfg.despawn_x(),
            lane_wf(final(self)@, *cfg),
            old(self)@.len() > 0 && old(self)@.last().x >= cfg.despawn_x()
                ==> final(self)@.len() > 0 && final(self)@.last() == old(self)@.last(),
    {
        let left = cfg.despawn_edge();
        let ghost s = old(self)@;
        let ghost mut k: int = 0;
        while self.entities.len() > 0 && self.entities[0].x < left
            invariant
                cfg.wf(),
                left == cfg.despawn_x(),
                s == old(self)@,
                lane_shape(s, *cfg),
                0 <= k <= s.len(),
                self@ == s.skip(k),
                forall|i: int| 0 <= i < k ==> (#[trigger] s[i]).x < left,
            decreases self@.len(),
        {
            assert(self@[0] == s[k]);
            self.entities.remove(0);
            proof {
                assert(self@ =~= s.skip(k + 1));
                k = k + 1;
            }
        }
        proof {
            assert forall|i: int| k <= i < s.len() implies (#[trigger] s[i]).x >= left by {
                lemma_spread(s, *cfg, k, i);
                assert((i - k) * cfg.min_step() >= 0) by (nonlinear_arith)
                    requires i - k >= 0, cfg.min_step() > 0;
                assert(s[k] == self@[0]);
            }
            lemma_filter_prefix(s, left as int, k);
            let t = self@;
            assert(forall|i: int| 0 <= i < t.len() ==> (#[trigger] t[i]) == s[i + k]);
            assert forall|i: int| 0 <= i < t.len() - 1 implies #[trigger] spaced(t, i, cfg.min_step(), cfg.max_step()) by {
                assert(t[i + 1] == s[i + 1 + k]);
                assert(spaced(s, i + k, cfg.min_step(), cfg.max_step()));
            }
            assert forall|i: int| 0 <= i < t.len() implies entity_fits(*cfg, #[trigger] t[i]) by {
                assert(entity_fits(*cfg, s[i + k]));
            }
            assert forall|i: int| 0 <= i < t.len() - 1 implies (#[trigger] t[i]).x < cfg.spawn_threshold() by {
                assert(s[i + k].x < cfg.spawn_threshold());
            }
            if s.len() > 0 && s.last().x >= left {
                assert(k < s.len());
                assert(t.last() == s.last());
            }
        }
    }

    /// One running frame: every entity moves `shift` to the left, the spawn
    /// rule adds at most one entity next to the rightmost, and every entity
    /// left of the despawn boundary is removed.
    ///
    /// The spawn comes before the despawn, so that no entity left of the
    /// boundary outlives the frame: in a frame that scrolls the whole lane
    /// off, the entity spawned next to the old rightmost is removed at once
    /// if it too stands left of the boundary, and the lane is refilled from
    /// its initial position on the next frame.
    ///
    /// A lane without a visible gap keeps none as long as a frame scrolls at
    /// most one minimal step.
    pub fn advance(&mut self, cfg: &LaneConfig, shift: i64, draw: LaneDraw, score: u64)
        requires
            cfg.wf(),
            cfg.draw_fits(draw),
            lane_wf(old(self)@, *cfg),
            0 <= shift <= MAX_SHIFT,
        ensures
            final(self)@ == advanced(old(self)@, *cfg, shift as int, draw, score as int),
            lane_wf(final(self)@, *cfg),
            forall|i: int| 0 <= i < final(self)@.len() ==> (#[trigger] final(self)@[i]).x >= cfg.despawn_x(),
            covered(old(self)@, *cfg) && shift <= cfg.min_step() ==> covered(final(self)@, *cfg),
    {
        self.scroll(cfg, shift);
        let ghost after_scroll = self@;
        if self.needs_spawn(cfg) {
            self.spawn(cfg, draw, score);
        }
        assert(self@ == with_spawn(after_scroll, *cfg, draw, score as int));
        self.despawn(cfg);
        proof {
            if covered(old(self)@, *cfg) && shift <= cfg.min_step() {
                lemma_lane_coverage(old(self)@, *cfg, shift as int, draw, score as int);
            }
        }
    }
}

impl Lane {
    /// Runs every entity's sprite clock for `dt_ms` more milliseconds.
    pub fn tick_animations(&mut self, cfg: &LaneConfig, dt_ms: u32)
        requires
            lane_wf(old(self)@, *cfg),
        ensures
            final(self)@ == ticked_lane(old(self)@, dt_ms as int),
            lane_wf(final(self)@, *cfg),
    {
        let n = self.entities.len();
        let mut i: usize = 0;
        while i < n
            invariant
                lane_wf(old(self)@, *cfg),
                n == self@.len(),
                n == old(self)@.len(),
                0 <= i <= n,
                forall|j: int| 0 <= j < i ==> self@[j] == ticked_lane(old(self)@, dt_ms as int)[j],
                forall|j: int| i <= j < n ==> self@[j] == old(self)@[j],
            decreases n - i,
        {
            let mut e = self.entities[i];
            assert(entity_fits(*cfg, old(self)@[i as int]));
            match e.animation {
                Some(a) => {
                    let mut c = a;
                    c.tick(dt_ms);
                    e.animation = Some(c);
                },
                None => {},
            }
            self.entities[i] = e;
            i = i + 1;
        }
        assert(self@ =~= ticked_lane(old(self)@, dt_ms as int));
        proof {
            let s = old(self)@;
            let t = self@;
            assert(forall|j: int| 0 <= j < t.len() ==> (#[trigger] t[j]).x == s[j].x);
            assert forall|j: int| 0 <= j < t.len() - 1 implies #[trigger] spaced(t, j, cfg.min_step(), cfg.max_step()) by {
                assert(spaced(s, j, cfg.min_step(), cfg.max_step()));
                assert(t[j + 1].x == s[j + 1].x);
            }
            assert forall|j: int| 0 <= j < t.len() implies entity_fits(*cfg, #[trigger] t[j]) by {
                assert(entity_fits(*cfg, s[j]));
            }
        }
    }

    /// Whether the point `(x, y)` is in contact with some entity of the lane.
    pub fn touches(&self, x: i64, y: i64, radius: i64) -> (r: bool)
        ensures
            r == touches(self@, x as int, y as int, radius as int),
    {
        let n = self.entities.len();
        let mut i: usize = 0;
        while i < n
            invariant
                n == self@.len(),
                0 <= i <= n,
                forall|j: int| 0 <= j < i ==> !in_contact(x as int, y as int, #[trigger] self@[j], radius as int),
            decreases n - i,
        {
            let e = self.entities[i];
            let dx: i128 = if x as i128 >= e.x as i128 { x as i128 - e.x as i128 } else { e.x as i128 - x as i128 };
            let dy: i128 = if y as i128 >= e.y as i128 { y as i128 - e.y as i128 } else { e.y as i128 - y as i128 };
            if dx < radius as i128 && dy < radius as i128 {
                assert(in_contact(x as int, y as int, self@[i as int], radius as int));
                return true;
            }
            i = i + 1;
        }
        false
    }
}

/// No visible gap ever opens: a lane whose rightmost entity stands at or
/// right of the spawn threshold still has one there after a running frame
/// that scrolls at most one minimal step.
pub proof fn lemma_lane_coverage(s: Seq<LaneEntity>, cfg: LaneConfig, shift: int, draw: LaneDraw, score: int)
    requires
        cfg.wf(),
        cfg.draw_fits(draw),
        lane_wf(s, cfg),
        covered(s, cfg),
        0 <= shift <= cfg.min_step(),
    ensures
        covered(advanced(s, cfg, shift, draw, score), cfg),
{
    let t = scrolled(s, shift);
    let n = t.len();
    assert(t[n - 1].x == s[n - 1].x - shift);
    let u = with_spawn(t, cfg, draw, score);
    assert(u.last().x >= cfg.spawn_threshold());
    reveal(Seq::filter);
    assert(on_or_right_of(cfg.despawn_x())(u.last()));
    assert(u.drop_last().push(u.last()) =~= u);
    let f = u.filter(on_or_right_of(cfg.despawn_x()));
    assert(f == u.drop_last().filter(on_or_right_of(cfg.despawn_x())).push(u.last()));
}

/// Despawning is exact: after a running frame an entity of the lane is
/// still there exactly when its scrolled position is at or right of the
/// despawn boundary, and nothing left of the boundary remains; a frame that
/// does not scroll keeps exactly the entities at or right of it.
pub proof fn lemma_despawn_exact(s: Seq<LaneEntity>, cfg: LaneConfig, shift: int, draw: LaneDraw, score: int)
    requires
        cfg.wf(),
        lane_wf(s, cfg),
        0 <= shift <= MAX_SHIFT,
    ensures
        forall|i: int| 0 <= i < s.len() ==>
            (advanced(s, cfg, shift, draw, score).contains(#[trigger] scrolled(s, shift)[i])
                <==> s[i].x - shift >= cfg.despawn_x()),
        forall|e: LaneEntity| #[trigger] advanced(s, cfg, shift, draw, score).contains(e) ==> e.x >= cfg.despawn_x(),
        forall|i: int| 0 <= i < s.len() ==>
            (s.filter(on_or_right_of(cfg.despawn_x())).contains(#[trigger] s[i]) <==> s[i].x >= cfg.despawn_x()),
{
    let p = on_or_right_of(cfg.despawn_x());
    let t = scrolled(s, shift);
    let u = with_spawn(t, cfg, draw, score);
    let f = u.filter(p);
    assert forall|e: LaneEntity| #[trigger] f.contains(e) implies e.x >= cfg.despawn_x() by {
        let j = choose|j: int| 0 <= j < f.len() && f[j] == e;
        u.lemma_filter_pred(p, j);
    }
    assert forall|i: int| 0 <= i < s.len() implies
        (f.contains(#[trigger] scrolled(s, shift)[i]) <==> s[i].x - shift >= cfg.despawn_x()) by {
        assert(t[i].x == s[i].x - shift);
        assert(u[i] == t[i]);
        if s[i].x - shift >= cfg.despawn_x() {
            u.lemma_filter_contains(p, i);
        }
    }
    assert forall|i: int| 0 <= i < s.len() implies
        (s.filter(p).contains(#[trigger] s[i]) <==> s[i].x >= cfg.despawn_x()) by {
        if s[i].x >= cfg.despawn_x() {
            s.lemma_filter_contains(p, i);
        } else if s.filter(p).contains(s[i]) {
            let j = choose|j: int| 0 <= j < s.filter(p).len() && s.filter(p)[j] == s[i];
            s.lemma_filter_pred(p, j);
        }
    }
}

/// Scrolling a lane keeps its shape.
proof fn lemma_scrolled_shape(s: Seq<LaneEntity>, cfg: LaneConfig, shift: int)
    requires
        cfg.wf(),
        lane_wf(s, cfg),
        0 <= shift <= MAX_SHIFT,
    ensures
        lane_shape(scrolled(s, shift), cfg),
{
    let t = scrolled(s, shift);
    assert(forall|j: int| 0 <= j < t.len() ==> (#[trigger] t[j]).x == s[j].x - shift);
    assert forall|j: int| 0 <= j < t.len() - 1 implies #[trigger] spaced(t, j, cfg.min_step(), cfg.max_step()) by {
        assert(spaced(s, j, cfg.min_step(), cfg.max_step()));
        assert(t[j + 1].x == s[j + 1].x - shift);
    }
    assert forall|j: int| 0 <= j < t.len() implies entity_fits(cfg, #[trigger] t[j]) by {
        assert(entity_fits(cfg, s[j]));
    }
}

/// The spawn rule keeps a lane's shape, and the spawned entity stands
/// between one minimal and one maximal step right of its anchor.
proof fn lemma_with_spawn_shape(t: Seq<LaneEntity>, cfg: LaneConfig, draw: LaneDraw, score: int)
    requires
        cfg.wf(),
        cfg.draw_fits(draw),
        lane_shape(t, cfg),
    ensures
        lane_shape(with_spawn(t, cfg, draw, score), cfg),
        with_spawn(t, cfg, draw, score).len() <= t.len() + 1,
        forall|i: int| 0 <= i < t.len() ==> #[trigger] with_spawn(t, cfg, draw, score)[i] == t[i],
{
    if needs_spawn(cfg, rightmost(t)) {
        let e = spawned(cfg, rightmost(t), draw, score);
        let u = t.push(e);
        if t.len() > 0 {
            let a = t.last().x as int;
            assert(t[t.len() - 1].x >= cfg.despawn_x() - MAX_SHIFT);
            assert(e.x == a + step_of(cfg, draw));
        } else {
            assert(e.x == cfg.initial_x);
        }
        let kind = kind_for(cfg, draw, spawn_x(cfg, rightmost(t), draw), score);
        assert(e.kind == kind);
        assert(e.y == y_for(cfg, kind));
        assert(entity_fits(cfg, e));
        assert(u[u.len() - 1] == e);
        assert forall|i: int| 0 <= i < u.len() implies entity_fits(cfg, #[trigger] u[i]) by {
            if i < t.len() {
                assert(u[i] == t[i]);
            }
        }
        assert forall|i: int| 0 <= i < u.len() - 1 implies #[trigger] spaced(u, i, cfg.min_step(), cfg.max_step()) by {
            assert(u[i] == t[i]);
            if i + 1 < t.len() {
                assert(u[i + 1] == t[i + 1]);
                assert(spaced(t, i, cfg.min_step(), cfg.max_step()));
            } else {
                assert(u[i + 1] == e);
            }
        }
        assert(forall|i: int| 0 <= i < t.len() ==> (#[trigger] u[i]) == t[i]);
    }
}

/// The first `k` entities stand left of `left`, the others at or right of it.
pub open spec fn splits_at(s: Seq<LaneEntity>, left: int, k: int) -> bool {
    &&& 0 <= k <= s.len()
    &&& forall|i: int| 0 <= i < k ==> (#[trigger] s[i]).x < left
    &&& forall|i: int| k <= i < s.len() ==> (#[trigger] s[i]).x >= left
}

/// In a lane of this shape the entities left of `left` form a prefix.
proof fn lemma_prefix_split(s: Seq<LaneEntity>, cfg: LaneConfig, left: int)
    requires
        cfg.wf(),
        lane_shape(s, cfg),
    ensures
        exists|k: int| #[trigger] splits_at(s, left, k),
    decreases s.len(),
{
    if s.len() == 0 {
        assert(splits_at(s, left, 0));
    } else if s.last().x < left {
        lemma_rightmost_is_max(s, cfg);
        assert(splits_at(s, left, s.len() as int));
    } else {
        let d = s.drop_last();
        assert(forall|i: int| 0 <= i < d.len() ==> (#[trigger] d[i]) == s[i]);
        assert forall|i: int| 0 <= i < d.len() - 1 implies #[trigger] spaced(d, i, cfg.min_step(), cfg.max_step()) by {
            assert(spaced(s, i, cfg.min_step(), cfg.max_step()));
            assert(d[i + 1] == s[i + 1]);
        }
        assert forall|i: int| 0 <= i < d.len() implies entity_fits(cfg, #[trigger] d[i]) by {
            assert(entity_fits(cfg, s[i]));
        }
        lemma_prefix_split(d, cfg, left);
        let k = choose|k: int| #[trigger] splits_at(d, left, k);
        assert forall|i: int| 0 <= i < k implies (#[trigger] s[i]).x < left by {
            assert(d[i] == s[i]);
        }
        assert forall|i: int| k <= i < s.len() implies (#[trigger] s[i]).x >= left by {
            if i < d.len() {
                assert(d[i] == s[i]);
            }
        }
        assert(splits_at(s, left, k));
    }
}

/// Despawning turns a lane of this shape into a well-formed one.
proof fn lemma_despawned_wf(u: Seq<LaneEntity>, cfg: LaneConfig)
    requires
        cfg.wf(),
        lane_shape(u, cfg),
    ensures
        lane_wf(u.filter(on_or_right_of(cfg.despawn_x())), cfg),
{
    let left = cfg.despawn_x();
    lemma_prefix_split(u, cfg, left);
    let k = choose|k: int| #[trigger] splits_at(u, left, k);
    lemma_filter_prefix(u, left, k);
    let t = u.skip(k);
    assert(forall|i: int| 0 <= i < t.len() ==> (#[trigger] t[i]) == u[i + k]);
    assert forall|i: int| 0 <= i < t.len() - 1 implies #[trigger] spaced(t, i, cfg.min_step(), cfg.max_step()) by {
        assert(t[i + 1] == u[i + 1 + k]);
        assert(spaced(u, i + k, cfg.min_step(), cfg.max_step()));
    }
    assert forall|i: int| 0 <= i < t.len() implies entity_fits(cfg, #[trigger] t[i]) by {
        assert(entity_fits(cfg, u[i + k]));
    }
    assert forall|i: int| 0 <= i < t.len() - 1 implies (#[trigger] t[i]).x < cfg.spawn_threshold() by {
        assert(u[i + k].x < cfg.spawn_threshold());
    }
    assert forall|i: int| 0 <= i < t.len() implies (#[trigger] t[i]).x >= left by {
        assert(u[i + k].x >= left);
    }
}

/// A running frame keeps a lane well formed.
pub proof fn lemma_advanced_wf(s: Seq<LaneEntity>, cfg: LaneConfig, shift: int, draw: LaneDraw, score: int)
    requires
        cfg.wf(),
        cfg.draw_fits(draw),
        lane_wf(s, cfg),
        0 <= shift <= MAX_SHIFT,
    ensures
        lane_shape(with_spawn(scrolled(s, shift), cfg, draw, score), cfg),
        lane_wf(advanced(s, cfg, shift, draw, score), cfg),
{
    lemma_scrolled_shape(s, cfg, shift);
    lemma_with_spawn_shape(scrolled(s, shift), cfg, draw, score);
    lemma_despawned_wf(with_spawn(scrolled(s, shift), cfg, draw, score), cfg);
}

/// The lane after the running frames `shifts`, `draws`, `scores`, in order.
pub open spec fn run(
    s: Seq<LaneEntity>,
    cfg: LaneConfig,
    shifts: Seq<int>,
    draws: Seq<LaneDraw>,
    scores: Seq<int>,
) -> Seq<LaneEntity>
    decreases shifts.len(),
{
    if shifts.len() == 0 {
        s
    } else {
        advanced(
            run(s, cfg, shifts.drop_last(), draws.drop_last(), scores.drop_last()),
            cfg,
            shifts.last(),
            draws.last(),
            scores.last(),
        )
    }
}

/// The frames of a run fit the lane: scrolls in range, draws from its distributions.
pub open spec fn run_fits(cfg: LaneConfig, shifts: Seq<int>, draws: Seq<LaneDraw>, scores: Seq<int>) -> bool {
    &&& draws.len() == shifts.len()
    &&& scores.len() == shifts.len()
    &&& forall|k: int| 0 <= k < shifts.len() ==> 0 <= #[trigger] shifts[k] <= MAX_SHIFT
    &&& forall|k: int| 0 <= k < draws.len() ==> cfg.draw_fits(#[trigger] draws[k])
}

/// Frame `k` of a run after its spawn and before its despawn.
pub open spec fn run_frame_spawned(
    s: Seq<LaneEntity>,
    cfg: LaneConfig,
    shifts: Seq<int>,
    draws: Seq<LaneDraw>,
    scores: Seq<int>,
    k: int,
) -> Seq<LaneEntity> {
    let before = run(s, cfg, shifts.take(k), draws.take(k), scores.take(k));
    with_spawn(scrolled(before, shifts[k]), cfg, draws[k], scores[k])
}

/// Each entity stands between the smallest and the largest gap right of the
/// one before it, and every entity is of the lane's kind set.
pub open spec fn spawn_spacing_holds(u: Seq<LaneEntity>, cfg: LaneConfig) -> bool {
    &&& forall|i: int| 0 <= i < u.len() - 1 ==> cfg.min_step() <= u[i + 1].x - (#[trigger] u[i]).x <= cfg.max_step()
    &&& forall|i: int| 0 <= i < u.len() ==> kind_in_role(cfg.role, (#[trigger] u[i]).kind)
}

/// Over any run of running frames, however long, every spawn stands between
/// the lane's smallest and largest gap right of the entity before it, and
/// every entity is of the lane's kind set: in each frame, before the
/// despawn, each consecutive pair (the new entity and its anchor included)
/// is spaced within those bounds and every entity is of the lane's kinds;
/// and the lane stays well formed between frames.
pub proof fn lemma_spawn_run(
    s: Seq<LaneEntity>,
    cfg: LaneConfig,
    shifts: Seq<int>,
    draws: Seq<LaneDraw>,
    scores: Seq<int>,
)
    requires
        cfg.wf(),
        lane_wf(s, cfg),
        run_fits(cfg, shifts, draws, scores),
    ensures
        lane_wf(run(s, cfg, shifts, draws, scores), cfg),
        forall|k: int| 0 <= k < shifts.len() ==> spawn_spacing_holds(#[trigger] run_frame_spawned(s, cfg, shifts, draws, scores, k), cfg),
    decreases shifts.len(),
{
    if shifts.len() > 0 {
        let n = shifts.len() - 1;
        let sh = shifts.drop_last();
        let dr = draws.drop_last();
        let sc = scores.drop_last();
        assert forall|k: int| 0 <= k < sh.len() implies 0 <= #[trigger] sh[k] <= MAX_SHIFT by {
            assert(sh[k] == shifts[k]);
        }
        assert forall|k: int| 0 <= k < dr.len() implies cfg.draw_fits(#[trigger] dr[k]) by {
            assert(dr[k] == draws[k]);
        }
        lemma_spawn_run(s, cfg, sh, dr, sc);
        let prev = run(s, cfg, sh, dr, sc);
        assert(cfg.draw_fits(draws[n]));
        assert(0 <= shifts[n] <= MAX_SHIFT);
        lemma_advanced_wf(prev, cfg, shifts.last(), draws.last(), scores.last());
        assert forall|k: int| 0 <= k < shifts.len() implies spawn_spacing_holds(
            #[trigger] run_frame_spawned(s, cfg, shifts, draws, scores, k),
            cfg,
        ) by {
            if k < n {
                assert(sh.take(k) =~= shifts.take(k));
                assert(dr.take(k) =~= draws.take(k));
                assert(sc.take(k) =~= scores.take(k));
                assert(sh[k] == shifts[k] && dr[k] == draws[k] && sc[k] == scores[k]);
                assert(run_frame_spawned(s, cfg, sh, dr, sc, k) == run_frame_spawned(s, cfg, shifts, draws, scores, k));
            } else {
                assert(shifts.take(k) =~= sh);
                assert(draws.take(k) =~= dr);
                assert(scores.take(k) =~= sc);
                let u = run_frame_spawned(s, cfg, shifts, draws, scores, k);
                assert(u == with_spawn(scrolled(prev, shifts.last()), cfg, draws.last(), scores.last()));
                assert(lane_shape(u, cfg));
                assert forall|i: int| 0 <= i < u.len() - 1 implies cfg.min_step() <= u[i + 1].x - (#[trigger] u[i]).x
                    <= cfg.max_step() by {
                    assert(spaced(u, i, cfg.min_step(), cfg.max_step()));
                }
                assert forall|i: int| 0 <= i < u.len() implies kind_in_role(cfg.role, (#[trigger] u[i]).kind) by {
                    assert(entity_fits(cfg, u[i]));
                }
            }
        }
    }
}

/// A lane never holds more entities than fit across the viewport at the
/// minimal spacing, plus two: all but the rightmost lie between the despawn
/// boundary and the spawn threshold, which are one viewport width apart.
pub proof fn lemma_bounded_population(s: Seq<LaneEntity>, cfg: LaneConfig)
    requires
        cfg.wf(),
        lane_wf(s, cfg),
    ensures
        s.len() <= (cfg.view_width() + cfg.min_step() - 1) / cfg.min_step() + 1,
        s.len() <= (cfg.view_width() + cfg.min_step() - 1) / cfg.min_step() + 2,
{
    let w = cfg.view_width();
    let m = cfg.min_step();
    let c = (w + m - 1) / m;
    assert(c >= 1) by (nonlinear_arith)
        requires c == (w + m - 1) / m, w >= 1, m >= 1;
    if s.len() >= 2 {
        let n = s.len();
        lemma_spread(s, cfg, 0, n - 2);
        assert(s[n - 2].x < cfg.spawn_threshold());
        assert(s[0].x >= cfg.despawn_x());
        assert((n - 2) * m < w);
        assert(n - 2 < c) by (nonlinear_arith)
            requires (n - 2) * m < w, c == (w + m - 1) / m, m >= 1, n >= 2;
    }
}

} // verus!
