use vstd::prelude::*;
use crate::error::ConfigError;
use crate::geometry::{all_wf, point_in_band, wall_error, within_band, Wall};

verus! {

/// The world a simulation runs in: obstacle walls, timing gates, and groups
/// of waypoints, each group an ordered list of start points and an ordered
/// list of end points. It is built once and then only read.
pub struct SimArea {
    boundaries: Vec<Wall>,
    start_positions: Vec<Vec<(i64, i64)>>,
    end_positions: Vec<Vec<(i64, i64)>>,
    timing_boundaries: Vec<Wall>,
}

/// Whether every point of `points` lies in the band.
pub open spec fn all_in_band(points: Seq<(i64, i64)>) -> bool {
    forall|i: int| 0 <= i < points.len() ==> point_in_band(#[trigger] points[i])
}

/// Whether every list of `lists` holds points of the band only.
pub open spec fn lists_in_band(lists: Seq<Vec<(i64, i64)>>) -> bool {
    forall|g: int| 0 <= g < lists.len() ==> all_in_band(#[trigger] lists[g]@)
}

proof fn lemma_all_wf_push(walls: Seq<Wall>, w: Wall)
    requires
        all_wf(walls),
        w.wf(),
    ensures
        all_wf(walls.push(w)),
{
    assert forall|i: int| 0 <= i < walls.push(w).len() implies (#[trigger] walls.push(w)[i]).wf() by {
        if i < walls.len() {
            assert(walls.push(w)[i] == walls[i]);
        }
    }
}

proof fn lemma_lists_in_band_push(lists: Seq<Vec<(i64, i64)>>, l: Vec<(i64, i64)>)
    requires
        lists_in_band(lists),
        all_in_band(l@),
    ensures
        lists_in_band(lists.push(l)),
{
    assert forall|g: int| 0 <= g < lists.push(l).len() implies all_in_band(
        #[trigger] lists.push(l)[g]@,
    ) by {
        if g < lists.len() {
            assert(lists.push(l)[g] == lists[g]);
        }
    }
}

fn check_points(points: &Vec<(i64, i64)>) -> (ok: bool)
    ensures
        ok == all_in_band(points@),
{
    let mut i: usize = 0;
    while i < points.len()
        invariant
            i <= points.len(),
            forall|j: int| 0 <= j < i ==> point_in_band(#[trigger] points@[j]),
        decreases points.len() - i,
    {
        let p: (i64, i64) = points[i];
        if !(within_band(p.0) && within_band(p.1)) {
            return false;
        }
        i += 1;
    }
    true
}

impl SimArea {
    /// The obstacle walls, in the order they were added.
    pub closed spec fn walls(self) -> Seq<Wall> {
        self.boundaries@
    }

    /// The timing gates, in the order they were added.
    pub closed spec fn gates(self) -> Seq<Wall> {
        self.timing_boundaries@
    }

    /// The lists of start points, one for each group.
    pub closed spec fn start_lists(self) -> Seq<Vec<(i64, i64)>> {
        self.start_positions@
    }

    /// The lists of end points, one for each group.
    pub closed spec fn end_lists(self) -> Seq<Vec<(i64, i64)>> {
        self.end_positions@
    }

    /// The number of waypoint groups.
    pub open spec fn group_count(self) -> nat {
        self.start_lists().len()
    }

    /// The start points of group `g`.
    pub open spec fn start_points(self, g: int) -> Seq<(i64, i64)> {
        self.start_lists()[g]@
    }

    /// The end points of group `g`.
    pub open spec fn end_points(self, g: int) -> Seq<(i64, i64)> {
        self.end_lists()[g]@
    }

    /// Every wall and gate is a proper segment of the world, every waypoint
    /// lies in the band, and each group has both of its lists.
    pub open spec fn wf(self) -> bool {
        &&& self.start_lists().len() == self.end_lists().len()
        &&& all_wf(self.walls())
        &&& all_wf(self.gates())
        &&& lists_in_band(self.start_lists())
        &&& lists_in_band(self.end_lists())
    }

    /// An empty world.
    pub fn new() -> (area: SimArea)
        ensures
            area.wf(),
            area.walls().len() == 0,
            area.gates().len() == 0,
            area.group_count() == 0,
    {
        SimArea {
            boundaries: Vec::new(),
            start_positions: Vec::new(),
            end_positions: Vec::new(),
            timing_boundaries: Vec::new(),
        }
    }

    /// Adds an obstacle wall from `point1` to `point2`, or refuses it and
    /// leaves the world as it was.
    pub fn add_wall(&mut self, point1: (i64, i64), point2: (i64, i64)) -> (r: Result<
        (),
        ConfigError,
    >)
        requires
            old(self).wf(),
        ensures
            final(self).wf(),
            final(self).gates() == old(self).gates(),
            final(self).start_lists() == old(self).start_lists(),
            final(self).end_lists() == old(self).end_lists(),
            match r {
                Ok(_) => {
                    &&& wall_error(point1, point2) is None
                    &&& final(self).walls().len() == old(self).walls().len() + 1
                    &&& final(self).walls().drop_last() == old(self).walls()
                    &&& final(self).walls().last().start() == point1
                    &&& final(self).walls().last().end() == point2
                },
                Err(e) => wall_error(point1, point2) == Some(e) && final(self).walls() == old(
                    self,
                ).walls(),
            },
    {
        match Wall::new(point1.0, point1.1, point2.0, point2.1) {
            Ok(w) => {
                self.boundaries.push(w);
                proof {
                    assert(self.boundaries@.drop_last() == old(self).boundaries@);
                    lemma_all_wf_push(old(self).walls(), w);
                }
                Ok(())
            },
            Err(e) => Err(e),
        }
    }

    /// Adds a timing gate from `point1` to `point2`, or refuses it and
    /// leaves the world as it was.
    pub fn add_timing_boundary(&mut self, point1: (i64, i64), point2: (i64, i64)) -> (r: Result<
        (),
        ConfigError,
    >)
        requires
            old(self).wf(),
        ensures
            final(self).wf(),
            final(self).walls() == old(self).walls(),
            final(self).start_lists() == old(self).start_lists(),
            final(self).end_lists() == old(self).end_lists(),
            match r {
                Ok(_) => {
                    &&& wall_error(point1, point2) is None
                    &&& final(self).gates().len() == old(self).gates().len() + 1
                    &&& final(self).gates().drop_last() == old(self).gates()
                    &&& final(self).gates().last().start() == point1
                    &&& final(self).gates().last().end() == point2
                },
                Err(e) => wall_error(point1, point2) == Some(e) && final(self).gates() == old(
                    self,
                ).gates(),
            },
    {
        match Wall::new(point1.0, point1.1, point2.0, point2.1) {
            Ok(w) => {
                self.timing_boundaries.push(w);
                proof {
                    assert(self.timing_boundaries@.drop_last() == old(self).timing_boundaries@);
                    lemma_all_wf_push(old(self).gates(), w);
                }
                Ok(())
            },
            Err(e) => Err(e),
        }
    }

    /// Adds a waypoint group and returns its number, or refuses it, where a
    /// point lies outside the band, and leaves the world as it was.
    pub fn add_start_end_group(&mut self, starts: Vec<(i64, i64)>, ends: Vec<(i64, i64)>) -> (r:
        Result<usize, ConfigError>)
        requires
            old(self).wf(),
        ensures
            final(self).wf(),
            final(self).walls() == old(self).walls(),
            final(self).gates() == old(self).gates(),
            match r {
                Ok(g) => {
                    &&& all_in_band(starts@) && all_in_band(ends@)
                    &&& g == old(self).group_count()
                    &&& final(self).start_lists() == old(self).start_lists().push(starts)
                    &&& final(self).end_lists() == old(self).end_lists().push(ends)
                },
                Err(e) => {
                    &&& e == ConfigError::OutOfBounds
                    &&& !(all_in_band(starts@) && all_in_band(ends@))
                    &&& final(self).start_lists() == old(self).start_lists()
                    &&& final(self).end_lists() == old(self).end_lists()
                },
            },
    {
        if !(check_points(&starts) && check_points(&ends)) {
            return Err(ConfigError::OutOfBounds);
        }
        let g: usize = self.start_positions.len();
        proof {
            lemma_lists_in_band_push(self.start_lists(), starts);
            lemma_lists_in_band_push(self.end_lists(), ends);
        }
        self.start_positions.push(starts);
        self.end_positions.push(ends);
        Ok(g)
    }

    /// The obstacle walls.
    pub fn boundaries(&self) -> (w: &Vec<Wall>)
        ensures
            w@ == self.walls(),
    {
        &self.boundaries
    }

    /// The timing gates.
    pub fn timing_boundaries(&self) -> (w: &Vec<Wall>)
        ensures
            w@ == self.gates(),
    {
        &self.timing_boundaries
    }

    /// The number of waypoint groups.
    pub fn groups(&self) -> (n: usize)
        ensures
            n == self.group_count(),
    {
        self.start_positions.len()
    }

    /// The start points of group `group`.
    pub fn start_positions(&self, group: usize) -> (p: &Vec<(i64, i64)>)
        requires
            group < self.group_count(),
        ensures
            p@ == self.start_points(group as int),
    {
        &self.start_positions[group]
    }

    /// The end points of group `group`.
    pub fn end_positions(&self, group: usize) -> (p: &Vec<(i64, i64)>)
        requires
            self.wf(),
            group < self.group_count(),
        ensures
            p@ == self.end_points(group as int),
    {
        &self.end_positions[group]
    }
}

} // verus!
