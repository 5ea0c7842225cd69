use crate::config::Intensity;
use crate::time::ExposureTime;
use vstd::prelude::*;

verus! {

/// One encounter as a participant registered it: whom it met, during which interval and
/// how intensely.
#[derive(Copy, Clone, Debug)]
pub struct Registration {
    pub of: usize,
    pub at: ExposureTime,
    pub intensity: Intensity,
}

/// Who registered whom: for each participant, by its number, the encounters that it
/// registered.
#[derive(Debug)]
pub struct SocialGraph {
    pub(crate) registrations: Vec<Vec<Registration>>,
}

impl SocialGraph {
    /// The number of participants.
    pub open(crate) spec fn size(self) -> int {
        self.registrations@.len() as int
    }

    /// The encounters that the participant `by` registered, in the order in which they
    /// came in.
    pub open(crate) spec fn registered_by(self, by: int) -> Seq<Registration> {
        self.registrations@[by]@
    }

    /// Whether the participant `by` registered an encounter of high risk with `of` during
    /// the interval `at`.
    pub open spec fn registered(self, by: int, of: int, at: int) -> bool {
        &&& 0 <= by < self.size()
        &&& exists|k: int|
            0 <= k < self.registered_by(by).len() && (#[trigger] self.registered_by(by)[k]).of == of
                && self.registered_by(by)[k].at@ == at && self.registered_by(by)[k].intensity
                == Intensity::HighRisk
    }

    /// Whether two participants registered an encounter of high risk with each other
    /// during the interval `at`.
    pub open spec fn linked(self, a: int, b: int, at: int) -> bool {
        self.registered(a, b, at) && self.registered(b, a, at)
    }

    /// Whether `group` holds, with each of its members, everyone linked to that member
    /// during the interval `at`.
    pub open spec fn closed(self, group: Set<int>, at: int) -> bool {
        forall|a: int, b: int| group.contains(a) && #[trigger] self.linked(a, b, at) ==> group.contains(b)
    }

    /// The vicinity of the participant `from` during the interval `at`: the participants
    /// that a chain of links during that interval leads to from `from`, which is to say
    /// the members of every closed group that `from` belongs to.
    pub open spec fn vicinity(self, from: int, at: int) -> Set<int> {
        Set::new(
            |member: int|
                forall|group: Set<int>|
                    group.contains(from) && #[trigger] self.closed(group, at) ==> group.contains(
                        member,
                    ),
        )
    }

    /// Whether the participant `infected` registered an encounter of high risk during the
    /// interval `at`, with whomever.
    pub open spec fn spread_at(self, infected: int, at: int) -> bool {
        &&& 0 <= infected < self.size()
        &&& exists|k: int|
            0 <= k < self.registered_by(infected).len() && (#[trigger] self.registered_by(
                infected,
            )[k]).at@ == at && self.registered_by(infected)[k].intensity == Intensity::HighRisk
    }

    /// Whether the participant `member` belongs to the vicinity of a participant who
    /// tested positive, during an interval in which that participant registered an
    /// encounter of high risk.
    pub open spec fn in_ssev_group(self, positively_tested: Seq<bool>, member: int) -> bool {
        exists|infected: int, at: int|
            0 <= infected < positively_tested.len() && positively_tested[infected]
                && self.spread_at(infected, at) && #[trigger] self.vicinity(infected, at).contains(
                member,
            )
    }

    /// A graph of `participants` participants who registered nothing.
    pub fn new(participants: usize) -> (r: Self)
        ensures
            r.size() == participants,
            forall|by: int| 0 <= by < participants ==> #[trigger] r.registered_by(by).len() == 0,
    {
        let mut registrations: Vec<Vec<Registration>> = Vec::new();
        let mut i: usize = 0;
        while i < participants
            invariant
                i <= participants,
                registrations@.len() == i,
                forall|by: int| 0 <= by < i ==> (#[trigger] registrations@[by])@.len() == 0,
            decreases participants - i,
        {
            registrations.push(Vec::new());
            i += 1;
        }
        SocialGraph { registrations }
    }

    /// The number of participants.
    pub fn participants(&self) -> (r: usize)
        ensures
            r == self.size(),
    {
        self.registrations.len()
    }

    /// Notes that the participant `by` registered an encounter with `of` during the
    /// interval `at`.
    pub fn add_one_way_registration(&mut self, by: usize, of: usize, at: ExposureTime, intensity: Intensity)
        requires
            by < old(self).size(),
        ensures
            final(self).size() == old(self).size(),
            final(self).registered_by(by as int) == old(self).registered_by(by as int).push(
                Registration { of, at, intensity },
            ),
            forall|other: int|
                0 <= other < final(self).size() && other != by ==> #[trigger] final(self).registered_by(other) == old(self).registered_by(other),
    {
        let mut registered: Vec<Registration> = self.registrations.remove(by);
        registered.push(Registration { of, at, intensity });
        self.registrations.insert(by, registered);
    }

    /// Notes that two participants registered an encounter with each other during the
    /// interval `at`.
    pub fn add_mutual_registration(
        &mut self,
        between: usize,
        and: usize,
        at: ExposureTime,
        intensity: Intensity,
    )
        requires
            between < old(self).size(),
            and < old(self).size(),
        ensures
            final(self).size() == old(self).size(),
            intensity == Intensity::HighRisk ==> final(self).linked(
                between as int,
                and as int,
                at@,
            ),
    {
        self.add_one_way_registration(between, and, at, intensity);
        self.add_one_way_registration(and, between, at, intensity);
        proof {
            if intensity == Intensity::HighRisk {
                let first = self.registered_by(between as int);
                let second = self.registered_by(and as int);
                if between == and {
                    assert(second[second.len() - 1].of == between);
                } else {
                    assert(first[first.len() - 1].of == and);
                    assert(second[second.len() - 1].of == between);
                }
            }
        }
    }

    /// Whether the participant `by` registered an encounter of high risk with `of` during
    /// the interval `at`.
    fn has_registered(&self, by: usize, of: usize, at: ExposureTime) -> (r: bool)
        requires
            by < self.size(),
        ensures
            r == self.registered(by as int, of as int, at@),
    {
        let registered: &Vec<Registration> = &self.registrations[by];
        let mut k: usize = 0;
        while k < registered.len()
            invariant
                k <= registered@.len(),
                by < self.size(),
                registered@ == self.registered_by(by as int),
                forall|j: int|
                    0 <= j < k ==> !((#[trigger] registered@[j]).of == of && registered@[j].at@ == at@
                        && registered@[j].intensity == Intensity::HighRisk),
            decreases registered@.len() - k,
        {
            let registration: Registration = registered[k];
            if registration.of == of && registration.at.en_interval_number == at.en_interval_number {
                match registration.intensity {
                    Intensity::HighRisk => {
                        assert(self.registered_by(by as int)[k as int].of == of);
                        return true;
                    },
                    Intensity::LowRisk => {},
                }
            }
            k += 1;
        }
        false
    }

    /// Whether two participants registered an encounter of high risk with each other
    /// during the interval `at`.
    pub fn mutual_high_risk_registration_at(&self, from: usize, to: usize, at: ExposureTime) -> (r: bool)
        ensures
            r == self.linked(from as int, to as int, at@),
    {
        if from >= self.registrations.len() || to >= self.registrations.len() {
            return false;
        }
        self.has_registered(from, to, at) && self.has_registered(to, from, at)
    }

    /// Whoever is linked to a member of the vicinity belongs to the vicinity.
    proof fn lemma_vicinity_closed(self, from: int, at: int, a: int, b: int)
        requires
            self.vicinity(from, at).contains(a),
            self.linked(a, b, at),
        ensures
            self.vicinity(from, at).contains(b),
    {
        assert forall|group: Set<int>|
            group.contains(from) && #[trigger] self.closed(group, at) implies group.contains(b) by {
            assert(group.contains(a));
        }
    }

    /// Marks the vicinity of the participant `from` during the interval `ssev_time`:
    /// each of its members ought to be warned from then on.
    #[verifier::rlimit(30)]
    pub fn explore_and_mark(&self, from: usize, ssev_time: ExposureTime, to_be_warned: &mut Vec<bool>)
        requires
            from < self.size(),
            old(to_be_warned)@.len() == self.size(),
        ensures
            final(to_be_warned)@.len() == self.size(),
            forall|member: int|
                0 <= member < self.size() ==> #[trigger] final(to_be_warned)@[member] == (old(to_be_warned)@[member] || self.vicinity(from as int, ssev_time@).contains(member)),
    {
        let count: usize = self.registrations.len();
        let at: Ghost<int> = Ghost(ssev_time@);
        let mut explored: Vec<bool> = Vec::new();
        let mut i: usize = 0;
        while i < count
            invariant
                i <= count,
                explored@.len() == i,
                forall|j: int| 0 <= j < i ==> !(#[trigger] explored@[j]),
            decreases count - i,
        {
            explored.push(false);
            i += 1;
        }
        explored[from] = true;
        let mut queue: Vec<usize> = Vec::new();
        queue.push(from);
        assert(queue@[0] == from);
        assert(forall|v: int| 0 <= v < count && #[trigger] explored@[v] ==> v == from);
        let ghost mut unexplored: Set<int> = Set::new(|v: int| 0 <= v < count && v != from);
        proof {
            assert(unexplored.subset_of(Set::new(|v: int| 0 <= v < count)));
            vstd::set_lib::lemma_int_range(0, count as int);
            assert(Set::new(|v: int| 0 <= v < count) =~= vstd::set_lib::set_int_range(
                0,
                count as int,
            ));
            vstd::set_lib::lemma_len_subset(unexplored, vstd::set_lib::set_int_range(0, count as int));
            assert forall|group: Set<int>|
                group.contains(from as int) && #[trigger] self.closed(group, at@) implies group.contains(
                from as int,
            ) by {}
        }
        while queue.len() > 0
            invariant
                count == self.size(),
                from < count,
                at@ == ssev_time@,
                explored@.len() == count,
                explored@[from as int],
                unexplored.finite(),
                forall|v: int| unexplored.contains(v) <==> (0 <= v < count && !explored@[v]),
                forall|v: int|
                    0 <= v < count && #[trigger] explored@[v] ==> self.vicinity(
                        from as int,
                        at@,
                    ).contains(v),
                forall|k: int| 0 <= k < queue@.len() ==> (#[trigger] queue@[k]) < count && explored@[queue@[k] as int],
                forall|a: int, b: int|
                    0 <= a < count && explored@[a] && #[trigger] self.linked(a, b, at@) ==> (
                    0 <= b < count && explored@[b]) || exists|k: int|
                        0 <= k < queue@.len() && #[trigger] queue@[k] == a,
            decreases 2 * unexplored.len() + queue@.len(),
        {
            let ghost queue_before = queue@;
            let ghost unexplored_before = unexplored;
            let current: usize = queue.pop().unwrap();
            proof {
                assert forall|a: int, b: int|
                    0 <= a < count && a != current && explored@[a] && #[trigger] self.linked(
                        a,
                        b,
                        at@,
                    ) implies (0 <= b < count && explored@[b]) || exists|k: int|
                    0 <= k < queue@.len() && #[trigger] queue@[k] == a by {
                    if !(0 <= b < count && explored@[b]) {
                        let k = choose|k: int|
                            0 <= k < queue_before.len() && #[trigger] queue_before[k] == a;
                        assert(k < queue_before.len() - 1);
                        assert(queue@[k] == a);
                    }
                }
            }
            let mut next: usize = 0;
            while next < count
                invariant
                    next <= count,
                    count == self.size(),
                    from < count,
                    current < count,
                    at@ == ssev_time@,
                    explored@.len() == count,
                    explored@[from as int],
                    explored@[current as int],
                    unexplored.finite(),
                    forall|v: int| unexplored.contains(v) <==> (0 <= v < count && !explored@[v]),
                    forall|v: int|
                        0 <= v < count && #[trigger] explored@[v] ==> self.vicinity(
                            from as int,
                            at@,
                        ).contains(v),
                    forall|k: int|
                        0 <= k < queue@.len() ==> (#[trigger] queue@[k]) < count
                            && explored@[queue@[k] as int],
                    forall|b: int|
                        0 <= b < next && #[trigger] self.linked(current as int, b, at@)
                            ==> explored@[b],
                    forall|a: int, b: int|
                        0 <= a < count && a != current && explored@[a] && #[trigger] self.linked(
                            a,
                            b,
                            at@,
                        ) ==> (0 <= b < count && explored@[b]) || exists|k: int|
                            0 <= k < queue@.len() && #[trigger] queue@[k] == a,
                    queue@.len() + 1 >= queue_before.len(),
                    2 * unexplored.len() + queue@.len() + (queue@.len() + 1 - queue_before.len())
                        + 1 == 2 * unexplored_before.len() + queue_before.len(),
                decreases count - next,
            {
                if !explored[next] && self.mutual_high_risk_registration_at(current, next, ssev_time) {
                    proof {
                        self.lemma_vicinity_closed(from as int, at@, current as int, next as int);
                    }
                    let ghost explored_before = explored@;
                    let ghost queue_then = queue@;
                    explored[next] = true;
                    queue.push(next);
                    proof {
                        unexplored = unexplored.remove(next as int);
                        assert forall|a: int, b: int|
                            0 <= a < count && a != current && explored@[a] && #[trigger] self.linked(
                                a,
                                b,
                                at@,
                            ) implies (0 <= b < count && explored@[b]) || exists|k: int|
                            0 <= k < queue@.len() && #[trigger] queue@[k] == a by {
                            if a == next {
                                assert(queue@[queue@.len() - 1] == a);
                            } else {
                                assert(explored_before[a]);
                                if !(0 <= b < count && explored_before[b]) {
                                    let k = choose|k: int|
                                        0 <= k < queue_then.len() && #[trigger] queue_then[k] == a;
                                    assert(queue@[k] == a);
                                }
                            }
                        }
                    }
                }
                next += 1;
            }
            proof {
                assert forall|a: int, b: int|
                    0 <= a < count && explored@[a] && #[trigger] self.linked(a, b, at@) implies (
                0 <= b < count && explored@[b]) || exists|k: int|
                    0 <= k < queue@.len() && #[trigger] queue@[k] == a by {
                    if a == current {
                        assert(self.registered(b, a, at@));
                    }
                }
            }
        }
        proof {
            let group = Set::new(|v: int| 0 <= v < count && explored@[v]);
            assert(self.closed(group, at@)) by {
                assert forall|a: int, b: int|
                    group.contains(a) && #[trigger] self.linked(a, b, at@) implies group.contains(
                    b,
                ) by {}
            }
            assert forall|v: int| self.vicinity(from as int, at@).contains(v) implies 0 <= v < count
                && explored@[v] by {
                assert(group.contains(from as int));
                assert(group.contains(v));
            }
        }
        let mut member: usize = 0;
        while member < count
            invariant
                member <= count,
                count == self.size(),
                explored@.len() == count,
                to_be_warned@.len() == count,
                old(to_be_warned)@.len() == count,
                forall|v: int|
                    0 <= v < member ==> #[trigger] to_be_warned@[v] == (old(to_be_warned)@[v]
                        || explored@[v]),
                forall|v: int| member <= v < count ==> #[trigger] to_be_warned@[v] == old(to_be_warned)@[v],
            decreases count - member,
        {
            if explored[member] {
                to_be_warned[member] = true;
            }
            member += 1;
        }
    }

    /// Finds the participants that ought to be warned: for each participant who tested
    /// positive and each interval during which that participant registered an encounter
    /// of high risk, the vicinity of the participant during that interval.
    #[verifier::rlimit(30)]
    pub fn mark_ssev_group(&self, positively_tested: &Vec<bool>) -> (to_be_warned: Vec<bool>)
        requires
            positively_tested@.len() == self.size(),
        ensures
            to_be_warned@.len() == self.size(),
            forall|member: int|
                0 <= member < self.size() ==> #[trigger] to_be_warned@[member] == self.in_ssev_group(
                    positively_tested@,
                    member,
                ),
    {
        let count: usize = self.registrations.len();
        let mut to_be_warned: Vec<bool> = Vec::new();
        let mut i: usize = 0;
        while i < count
            invariant
                i <= count,
                to_be_warned@.len() == i,
                forall|j: int| 0 <= j < i ==> !(#[trigger] to_be_warned@[j]),
            decreases count - i,
        {
            to_be_warned.push(false);
            i += 1;
        }
        let mut infected: usize = 0;
        while infected < count
            invariant
                infected <= count,
                count == self.size(),
                positively_tested@.len() == count,
                to_be_warned@.len() == count,
                forall|member: int|
                    0 <= member < count ==> #[trigger] to_be_warned@[member] == self.marked_upto(
                        positively_tested@,
                        infected as int,
                        0,
                        member,
                    ),
            decreases count - infected,
        {
            if positively_tested[infected] {
                let registered: &Vec<Registration> = &self.registrations[infected];
                let mut k: usize = 0;
                while k < registered.len()
                    invariant
                        k <= registered@.len(),
                        infected < count,
                        count == self.size(),
                        positively_tested@.len() == count,
                        positively_tested@[infected as int],
                        registered@ == self.registered_by(infected as int),
                        to_be_warned@.len() == count,
                        forall|member: int|
                            0 <= member < count ==> #[trigger] to_be_warned@[member]
                                == self.marked_upto(
                                positively_tested@,
                                infected as int,
                                k as int,
                                member,
                            ),
                    decreases registered@.len() - k,
                {
                    let registration: Registration = registered[k];
                    let ghost before = to_be_warned@;
                    match registration.intensity {
                        Intensity::HighRisk => {
                            self.explore_and_mark(infected, registration.at, &mut to_be_warned);
                        },
                        Intensity::LowRisk => {},
                    }
                    proof {
                        assert forall|member: int| 0 <= member < count implies #[trigger] to_be_warned@[member]
                            == self.marked_upto(
                            positively_tested@,
                            infected as int,
                            k + 1,
                            member,
                        ) by {
                            self.lemma_marked_step(
                                positively_tested@,
                                infected as int,
                                k as int,
                                member,
                            );
                            assert(before[member] == self.marked_upto(
                                positively_tested@,
                                infected as int,
                                k as int,
                                member,
                            ));
                        }
                    }
                    k += 1;
                }
                proof {
                    assert forall|member: int| 0 <= member < count implies #[trigger] to_be_warned@[member]
                        == self.marked_upto(positively_tested@, infected + 1, 0, member) by {
                        self.lemma_marked_next(positively_tested@, infected as int, member);
                    }
                }
            } else {
                proof {
                    assert forall|member: int| 0 <= member < count implies #[trigger] to_be_warned@[member]
                        == self.marked_upto(positively_tested@, infected + 1, 0, member) by {
                        self.lemma_marked_skip(positively_tested@, infected as int, member);
                    }
                }
            }
            infected += 1;
        }
        proof {
            assert forall|member: int| 0 <= member < count implies #[trigger] to_be_warned@[member]
                == self.in_ssev_group(positively_tested@, member) by {
                self.lemma_marked_all(positively_tested@, member);
            }
        }
        to_be_warned
    }

    /// Whether the participant `member` belongs to a vicinity that was gone through when
    /// all registrations of the participants before `infected` and the first `k`
    /// registrations of `infected` were looked at.
    pub open(crate) spec fn marked_upto(
        self,
        positively_tested: Seq<bool>,
        infected: int,
        k: int,
        member: int,
    ) -> bool {
        exists|p: int, j: int|
            0 <= p < positively_tested.len() && positively_tested[p] && 0 <= p < self.size() && 0 <= j
                < self.registered_by(p).len() && (p < infected || (p == infected && j < k)) && (
            #[trigger] self.registered_by(p)[j]).intensity == Intensity::HighRisk
                && self.vicinity(p, self.registered_by(p)[j].at@).contains(member)
    }

    /// What one more registration of the participant `infected` adds.
    proof fn lemma_marked_step(self, positively_tested: Seq<bool>, infected: int, k: int, member: int)
        requires
            0 <= infected < self.size(),
            infected < positively_tested.len(),
            positively_tested[infected],
            0 <= k < self.registered_by(infected).len(),
        ensures
            self.marked_upto(positively_tested, infected, k + 1, member) == (self.marked_upto(
                positively_tested,
                infected,
                k,
                member,
            ) || (self.registered_by(infected)[k].intensity == Intensity::HighRisk && self.vicinity(
                infected,
                self.registered_by(infected)[k].at@,
            ).contains(member))),
    {
        if self.marked_upto(positively_tested, infected, k + 1, member) {
            let (p, j) = choose|p: int, j: int|
                0 <= p < positively_tested.len() && positively_tested[p] && 0 <= p < self.size() && 0
                    <= j < self.registered_by(p).len() && (p < infected || (p == infected && j < k
                    + 1)) && (#[trigger] self.registered_by(p)[j]).intensity == Intensity::HighRisk
                    && self.vicinity(p, self.registered_by(p)[j].at@).contains(member);
            if !(p == infected && j == k) {
                assert(p < infected || (p == infected && j < k));
                assert(self.registered_by(p)[j].intensity == Intensity::HighRisk);
            }
        }
        if self.marked_upto(positively_tested, infected, k, member) {
            let (p, j) = choose|p: int, j: int|
                0 <= p < positively_tested.len() && positively_tested[p] && 0 <= p < self.size() && 0
                    <= j < self.registered_by(p).len() && (p < infected || (p == infected && j < k))
                    && (#[trigger] self.registered_by(p)[j]).intensity == Intensity::HighRisk
                    && self.vicinity(p, self.registered_by(p)[j].at@).contains(member);
            assert(p < infected || (p == infected && j < k + 1));
            assert(self.registered_by(p)[j].intensity == Intensity::HighRisk);
        }
        if self.registered_by(infected)[k].intensity == Intensity::HighRisk && self.vicinity(
            infected,
            self.registered_by(infected)[k].at@,
        ).contains(member) {
            assert(self.registered_by(infected)[k].intensity == Intensity::HighRisk);
        }
    }

    /// All registrations of the participant `infected` are those before the next
    /// participant.
    proof fn lemma_marked_next(self, positively_tested: Seq<bool>, infected: int, member: int)
        requires
            0 <= infected < self.size(),
        ensures
            self.marked_upto(positively_tested, infected + 1, 0, member) == self.marked_upto(
                positively_tested,
                infected,
                self.registered_by(infected).len() as int,
                member,
            ),
    {
        let n = self.registered_by(infected).len() as int;
        if self.marked_upto(positively_tested, infected + 1, 0, member) {
            let (p, j) = choose|p: int, j: int|
                0 <= p < positively_tested.len() && positively_tested[p] && 0 <= p < self.size() && 0
                    <= j < self.registered_by(p).len() && (p < infected + 1 || (p == infected + 1
                    && j < 0)) && (#[trigger] self.registered_by(p)[j]).intensity
                    == Intensity::HighRisk && self.vicinity(p, self.registered_by(p)[j].at@).contains(
                    member,
                );
            assert(p < infected || (p == infected && j < n));
            assert(self.registered_by(p)[j].intensity == Intensity::HighRisk);
        }
        if self.marked_upto(positively_tested, infected, n, member) {
            let (p, j) = choose|p: int, j: int|
                0 <= p < positively_tested.len() && positively_tested[p] && 0 <= p < self.size() && 0
                    <= j < self.registered_by(p).len() && (p < infected || (p == infected && j < n))
                    && (#[trigger] self.registered_by(p)[j]).intensity == Intensity::HighRisk
                    && self.vicinity(p, self.registered_by(p)[j].at@).contains(member);
            assert(p < infected + 1);
            assert(self.registered_by(p)[j].intensity == Intensity::HighRisk);
        }
    }

    /// A participant who did not test positive adds nothing.
    proof fn lemma_marked_skip(self, positively_tested: Seq<bool>, infected: int, member: int)
        requires
            0 <= infected < self.size(),
            infected < positively_tested.len(),
            !positively_tested[infected],
        ensures
            self.marked_upto(positively_tested, infected + 1, 0, member) == self.marked_upto(
                positively_tested,
                infected,
                0,
                member,
            ),
    {
        if self.marked_upto(positively_tested, infected + 1, 0, member) {
            let (p, j) = choose|p: int, j: int|
                0 <= p < positively_tested.len() && positively_tested[p] && 0 <= p < self.size() && 0
                    <= j < self.registered_by(p).len() && (p < infected + 1 || (p == infected + 1
                    && j < 0)) && (#[trigger] self.registered_by(p)[j]).intensity
                    == Intensity::HighRisk && self.vicinity(p, self.registered_by(p)[j].at@).contains(
                    member,
                );
            assert(p < infected);
            assert(self.registered_by(p)[j].intensity == Intensity::HighRisk);
        }
        if self.marked_upto(positively_tested, infected, 0, member) {
            let (p, j) = choose|p: int, j: int|
                0 <= p < positively_tested.len() && positively_tested[p] && 0 <= p < self.size() && 0
                    <= j < self.registered_by(p).len() && (p < infected || (p == infected && j < 0))
                    && (#[trigger] self.registered_by(p)[j]).intensity == Intensity::HighRisk
                    && self.vicinity(p, self.registered_by(p)[j].at@).contains(member);
            assert(p < infected + 1);
            assert(self.registered_by(p)[j].intensity == Intensity::HighRisk);
        }
    }

    /// When all registrations were looked at, the vicinities that were gone through make
    /// up the group.
    proof fn lemma_marked_all(self, positively_tested: Seq<bool>, member: int)
        requires
            positively_tested.len() == self.size(),
        ensures
            self.marked_upto(positively_tested, self.size(), 0, member) == self.in_ssev_group(
                positively_tested,
                member,
            ),
    {
        if self.marked_upto(positively_tested, self.size(), 0, member) {
            let (p, j) = choose|p: int, j: int|
                0 <= p < positively_tested.len() && positively_tested[p] && 0 <= p < self.size() && 0
                    <= j < self.registered_by(p).len() && (p < self.size() || (p == self.size() && j
                    < 0)) && (#[trigger] self.registered_by(p)[j]).intensity == Intensity::HighRisk
                    && self.vicinity(p, self.registered_by(p)[j].at@).contains(member);
            let at = self.registered_by(p)[j].at@;
            assert(self.registered_by(p)[j].at@ == at);
            assert(self.spread_at(p, at));
            assert(self.vicinity(p, at).contains(member));
        }
        if self.in_ssev_group(positively_tested, member) {
            let (p, at) = choose|p: int, at: int|
                0 <= p < positively_tested.len() && positively_tested[p] && self.spread_at(p, at)
                    && #[trigger] self.vicinity(p, at).contains(member);
            let j = choose|j: int|
                0 <= j < self.registered_by(p).len() && (#[trigger] self.registered_by(p)[j]).at@
                    == at && self.registered_by(p)[j].intensity == Intensity::HighRisk;
            assert(self.registered_by(p)[j].intensity == Intensity::HighRisk);
        }
    }
}

} // verus!
