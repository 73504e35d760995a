//! The membership convergence oracle.
//!
//! The oracle polls the members of an expected group until each of them reports
//! exactly that group as its view, within a budget of simulation steps. It is a
//! state machine: it says what to do next (advance the simulation, ask a member
//! for its view, or stop with a verdict) and is told what came of it. Whoever runs
//! the simulation performs the actions.
//!
//! The oracle reasons about neither crashes nor reachability: the expected group
//! must already leave out every node that cannot be expected to converge.

use crate::text::{contains_text, same_members, text_of, texts};
use vstd::prelude::*;

verus! {

/// The tag of a reply that carries a member list.
pub open spec fn members_tag() -> Seq<char> {
    "MEMBERS"@
}

/// A member's answer to the question for its view.
#[derive(Debug)]
pub struct MembersReply {
    /// The tag of the message that came back.
    pub tag: String,
    /// The members it lists, where its payload could be read as a member list.
    pub members: Option<Vec<String>>,
}

/// What a [`MembersReply`] holds.
pub struct MembersReplyView {
    pub tag: Seq<char>,
    pub members: Option<Seq<Seq<char>>>,
}

impl View for MembersReply {
    type V = MembersReplyView;

    open spec fn view(&self) -> MembersReplyView {
        MembersReplyView {
            tag: self.tag@,
            members: match self.members {
                Some(list) => Some(texts(list@)),
                None => None,
            },
        }
    }
}

/// What the oracle is told.
#[derive(Debug)]
pub enum Event {
    /// The run begins.
    Start,
    /// The simulation was advanced; `more` says whether events remain.
    Advanced { more: bool },
    /// The member that was asked answered.
    Reply(MembersReply),
    /// The member that was asked did not answer within the step budget.
    Timeout,
}

/// What an [`Event`] holds.
pub enum EventView {
    Start,
    Advanced { more: bool },
    Reply(MembersReplyView),
    Timeout,
}

impl View for Event {
    type V = EventView;

    open spec fn view(&self) -> EventView {
        match self {
            Event::Start => EventView::Start,
            Event::Advanced { more } => EventView::Advanced { more: *more },
            Event::Reply(r) => EventView::Reply(r@),
            Event::Timeout => EventView::Timeout,
        }
    }
}

/// Why a run failed.
#[derive(Clone, Copy, Debug, PartialEq, Eq, Structural)]
pub enum MembershipError {
    /// The member at this position of the group did not answer.
    NoResponse { member: usize },
    /// The member's answer did not carry the tag of a member list.
    WrongType { member: usize },
    /// The member's answer carried the right tag and no readable member list.
    Malformed { member: usize },
    /// The run ended before every member reported the expected group.
    NotStabilized,
    /// The oracle was told something it had not asked for.
    OutOfTurn,
}

/// A failed run, with the member that the failure is about.
#[derive(Clone, Debug, PartialEq, Eq)]
pub struct Unsettled {
    pub error: MembershipError,
    /// The name of the member that did not answer or answered wrongly, where the
    /// failure is about one member.
    pub node: Option<String>,
}

/// What an [`Unsettled`] holds.
pub struct UnsettledView {
    pub error: MembershipError,
    pub node: Option<Seq<char>>,
}

impl View for Unsettled {
    type V = UnsettledView;

    open spec fn view(&self) -> UnsettledView {
        UnsettledView {
            error: self.error,
            node: match self.node {
                Some(n) => Some(n@),
                None => None,
            },
        }
    }
}

/// The position of the member that a failure is about, where it is about one.
pub open spec fn member_of(error: MembershipError) -> Option<usize> {
    match error {
        MembershipError::NoResponse { member } => Some(member),
        MembershipError::WrongType { member } => Some(member),
        MembershipError::Malformed { member } => Some(member),
        _ => None,
    }
}

/// The failure with the name of the member that it is about.
pub open spec fn unsettled_by(group: Seq<Seq<char>>, error: MembershipError) -> UnsettledView {
    UnsettledView {
        error,
        node: match member_of(error) {
            Some(member) => if member < group.len() {
                Some(group[member as int])
            } else {
                None
            },
            None => None,
        },
    }
}

/// What the oracle asks for next.
#[derive(Clone, Copy, Debug, PartialEq, Eq)]
pub enum Action {
    /// Advance the simulation by this many steps, or until no events remain.
    Advance { steps: u32 },
    /// Ask the member at this position of the group for its view and wait for one
    /// answer, for at most `max_steps` steps.
    Ask { member: usize, max_steps: u32 },
    /// Stop: the run has this verdict.
    Finish(Result<bool, MembershipError>),
}

/// Where the oracle stands.
#[derive(Clone, Copy, Debug, PartialEq, Eq, Structural)]
pub enum Phase {
    /// Not started.
    Fresh,
    /// Waiting for the simulation to be advanced.
    Advancing,
    /// Waiting for the answer of a member; `more` is what the last advance said.
    Asking { member: usize, more: bool },
    /// Stopped with a verdict.
    Done,
}

/// The state of a run as contracts see it.
pub struct StabilizerView {
    /// The expected group, without repetitions.
    pub group: Seq<Seq<char>>,
    /// For each member, whether it has reported the expected group.
    pub stabilized: Seq<bool>,
    /// For each member, the view it reported last.
    pub observed: Seq<Option<Seq<Seq<char>>>>,
    /// The steps granted to the simulation so far.
    pub steps: nat,
    pub steps_per_iter: u32,
    pub max_steps: u32,
    pub phase: Phase,
}

/// The state of a run.
pub struct Stabilizer {
    group: Vec<String>,
    stabilized: Vec<bool>,
    observed: Vec<Option<Vec<String>>>,
    steps: u64,
    steps_per_iter: u32,
    max_steps: u32,
    phase: Phase,
}

/// The views of a list of optional member lists.
pub open spec fn observed_views(v: Seq<Option<Vec<String>>>) -> Seq<Option<Seq<Seq<char>>>> {
    v.map_values(
        |o: Option<Vec<String>>|
            match o {
                Some(list) => Some(texts(list@)),
                None => None,
            },
    )
}

/// A mark is earned by a view that is the expected group, as a set.
pub open spec fn earned(observed: Option<Seq<Seq<char>>>, group: Seq<Seq<char>>) -> bool {
    observed matches Some(view) && view.to_set() == group.to_set()
}

/// A state is consistent when it keeps one flag and one view per member, the
/// group repeats no member and its positions can be counted, every marked member
/// has earned its mark, and the steps granted stay within one round of the
/// budget.
pub open spec fn consistent(s: StabilizerView) -> bool {
    &&& s.group.no_duplicates()
    &&& s.group.len() <= usize::MAX
    &&& s.stabilized.len() == s.group.len()
    &&& s.observed.len() == s.group.len()
    &&& forall|i: int|
        0 <= i < s.group.len() && #[trigger] s.stabilized[i] ==> earned(s.observed[i], s.group)
    &&& s.steps <= s.max_steps + s.steps_per_iter
}

/// A state is well formed when it is consistent, the budget is not yet exceeded
/// while the simulation is being advanced, and a member being asked is one of the
/// group that is not yet marked.
pub open spec fn well_formed(s: StabilizerView) -> bool {
    &&& consistent(s)
    &&& s.phase is Advancing ==> s.steps <= s.max_steps
    &&& s.phase matches Phase::Asking { member, .. } ==> member < s.group.len()
        && !s.stabilized[member as int]
}

/// Every member has reported the expected group.
pub open spec fn all_stabilized(s: StabilizerView) -> bool {
    forall|i: int| 0 <= i < s.stabilized.len() ==> s.stabilized[i]
}

/// The first member at or after `from` that has not reported the expected group;
/// the number of members where there is none.
pub open spec fn next_pending(stabilized: Seq<bool>, from: int) -> int
    decreases stabilized.len() - from,
{
    if from < 0 || from >= stabilized.len() {
        stabilized.len() as int
    } else if !stabilized[from] {
        from
    } else {
        next_pending(stabilized, from + 1)
    }
}

/// The verdict of a run that ends in state `s`.
pub open spec fn final_verdict(s: StabilizerView) -> Result<bool, MembershipError> {
    if all_stabilized(s) {
        Ok(true)
    } else {
        Err(MembershipError::NotStabilized)
    }
}

/// What the oracle does at the head of a round: another round while a member is
/// pending and the budget lasts, else the verdict.
pub open spec fn round_head(s: StabilizerView) -> (StabilizerView, Action) {
    if !all_stabilized(s) && s.steps <= s.max_steps {
        (StabilizerView { phase: Phase::Advancing, ..s }, Action::Advance { steps: s.steps_per_iter })
    } else {
        (StabilizerView { phase: Phase::Done, ..s }, Action::Finish(final_verdict(s)))
    }
}

/// What the oracle does once the members before `from` have been dealt with in
/// this round: ask the next pending member, or end the round. A round that found
/// no events left is the last.
pub open spec fn ask_from(s: StabilizerView, from: int, more: bool) -> (StabilizerView, Action) {
    let member = next_pending(s.stabilized, from);
    if member < s.stabilized.len() {
        (
            StabilizerView { phase: Phase::Asking { member: member as usize, more }, ..s },
            Action::Ask { member: member as usize, max_steps: s.max_steps },
        )
    } else if more {
        round_head(s)
    } else {
        (StabilizerView { phase: Phase::Done, ..s }, Action::Finish(final_verdict(s)))
    }
}

/// A state that stops with an error.
pub open spec fn fail(s: StabilizerView, e: MembershipError) -> (StabilizerView, Action) {
    (StabilizerView { phase: Phase::Done, ..s }, Action::Finish(Err(e)))
}

/// The oracle's step: from a state and what it is told, the next state and what
/// it asks for.
pub open spec fn next(s: StabilizerView, e: EventView) -> (StabilizerView, Action) {
    match (s.phase, e) {
        (Phase::Fresh, EventView::Start) => round_head(s),
        (Phase::Advancing, EventView::Advanced { more }) => ask_from(
            StabilizerView { steps: (s.steps + s.steps_per_iter) as nat, ..s },
            0,
            more,
        ),
        (Phase::Asking { member, more }, EventView::Timeout) => fail(
            s,
            MembershipError::NoResponse { member },
        ),
        (Phase::Asking { member, more }, EventView::Reply(reply)) => {
            if reply.tag != members_tag() {
                fail(s, MembershipError::WrongType { member })
            } else {
                match reply.members {
                    None => fail(s, MembershipError::Malformed { member }),
                    Some(list) => ask_from(
                        StabilizerView {
                            stabilized: if list.to_set() == s.group.to_set() {
                                s.stabilized.update(member as int, true)
                            } else {
                                s.stabilized
                            },
                            observed: s.observed.update(member as int, Some(list)),
                            ..s
                        },
                        member + 1,
                        more,
                    ),
                }
            }
        },
        _ => fail(s, MembershipError::OutOfTurn),
    }
}

/// Where `next_pending` points, a member is pending, and none is between `from`
/// and there.
pub proof fn lemma_next_pending(stabilized: Seq<bool>, from: int)
    requires
        0 <= from,
    ensures
        from <= next_pending(stabilized, from) || next_pending(stabilized, from) == stabilized.len(),
        next_pending(stabilized, from) <= stabilized.len(),
        next_pending(stabilized, from) < stabilized.len() ==> !stabilized[next_pending(
            stabilized,
            from,
        )],
        forall|i: int| from <= i < next_pending(stabilized, from) ==> stabilized[i],
    decreases stabilized.len() - from,
{
    if from < stabilized.len() && stabilized[from] {
        lemma_next_pending(stabilized, from + 1);
    }
}

impl Stabilizer {
    /// The state as contracts see it.
    pub closed spec fn view(&self) -> StabilizerView {
        StabilizerView {
            group: texts(self.group@),
            stabilized: self.stabilized@,
            observed: observed_views(self.observed@),
            steps: self.steps as nat,
            steps_per_iter: self.steps_per_iter,
            max_steps: self.max_steps,
            phase: self.phase,
        }
    }

    /// Whether the state is well formed. Every state that this module hands out
    /// is.
    pub open spec fn wf(&self) -> bool {
        well_formed(self@)
    }

    /// A fresh run for the group that `members` lists; a member listed twice
    /// counts once.
    pub fn new(members: &Vec<String>, steps_per_iter: u32, max_steps: u32) -> (s: Stabilizer)
        ensures
            s.wf(),
            s@.group.to_set() == texts(members@).to_set(),
            s@.group.no_duplicates(),
            s@.stabilized == Seq::new(s@.group.len(), |i: int| false),
            s@.observed == Seq::new(s@.group.len(), |i: int| None::<Seq<Seq<char>>>),
            s@.steps == 0,
            s@.steps_per_iter == steps_per_iter,
            s@.max_steps == max_steps,
            s@.phase == Phase::Fresh,
    {
        let mut group: Vec<String> = Vec::new();
        let mut stabilized: Vec<bool> = Vec::new();
        let mut observed: Vec<Option<Vec<String>>> = Vec::new();
        let mut i: usize = 0;
        while i < members.len()
            invariant
                i <= members.len(),
                texts(group@).no_duplicates(),
                texts(group@).to_set() == texts(members@).take(i as int).to_set(),
                stabilized.len() == group.len(),
                observed.len() == group.len(),
                stabilized@ == Seq::new(group.len() as nat, |k: int| false),
                observed_views(observed@) == Seq::new(
                    group.len() as nat,
                    |k: int| None::<Seq<Seq<char>>>,
                ),
            decreases members.len() - i,
        {
            let ghost before = texts(group@);
            let ghost seen = texts(members@).take(i as int);
            let ghost item = texts(members@)[i as int];
            proof {
                assert(texts(members@).take(i + 1) == seen.push(item));
                assert(seen.push(item).to_set() == seen.to_set().insert(item)) by {
                    assert forall|x: Seq<char>| seen.push(item).to_set().contains(x)
                        == seen.to_set().insert(item).contains(x) by {
                        if seen.push(item).contains(x) {
                            let k = choose|k: int| 0 <= k < seen.push(item).len() && seen.push(item)[k] == x;
                            if k < seen.len() {
                                assert(seen[k] == x);
                            }
                        }
                        if seen.contains(x) {
                            let k = choose|k: int| 0 <= k < seen.len() && seen[k] == x;
                            assert(seen.push(item)[k] == x);
                        }
                        if x == item {
                            assert(seen.push(item)[seen.len() as int] == x);
                        }
                    }
                }
            }
            if !contains_text(&group, &members[i]) {
                let ghost views_before = observed_views(observed@);
                group.push(members[i].clone());
                stabilized.push(false);
                observed.push(None);
                proof {
                    assert forall|k: int| 0 <= k < observed.len() implies observed_views(
                        observed@,
                    )[k] is None by {
                        if k < observed.len() - 1 {
                            assert(observed_views(observed@)[k] == views_before[k]);
                        }
                    }
                    assert(texts(group@) == before.push(item));
                    assert(before.push(item).to_set() == before.to_set().insert(item)) by {
                        assert forall|x: Seq<char>| before.push(item).to_set().contains(x)
                            == before.to_set().insert(item).contains(x) by {
                            if before.push(item).contains(x) {
                                let k = choose|k: int|
                                    0 <= k < before.push(item).len() && before.push(item)[k] == x;
                                if k < before.len() {
                                    assert(before[k] == x);
                                }
                            }
                            if before.contains(x) {
                                let k = choose|k: int| 0 <= k < before.len() && before[k] == x;
                                assert(before.push(item)[k] == x);
                            }
                            if x == item {
                                assert(before.push(item)[before.len() as int] == x);
                            }
                        }
                    }
                    assert(stabilized@ == Seq::new(group.len() as nat, |k: int| false));
                    assert(observed_views(observed@) == Seq::new(
                        group.len() as nat,
                        |k: int| None::<Seq<Seq<char>>>,
                    ));
                }
            } else {
                proof {
                    assert(before.to_set().contains(item));
                    assert(before.to_set().insert(item) == before.to_set());
                }
            }
            i += 1;
        }
        assert(texts(members@).take(members.len() as int) == texts(members@));
        Stabilizer {
            group,
            stabilized,
            observed,
            steps: 0,
            steps_per_iter,
            max_steps,
            phase: Phase::Fresh,
        }
    }

    /// The expected group, in the order in which members are asked.
    pub fn group(&self) -> (g: &Vec<String>)
        ensures
            texts(g@) == self@.group,
    {
        &self.group
    }

    /// Where the run stands.
    pub fn phase(&self) -> (p: Phase)
        ensures
            p == self@.phase,
    {
        self.phase
    }

    /// The steps granted to the simulation so far.
    pub fn steps(&self) -> (n: u64)
        ensures
            n == self@.steps,
    {
        self.steps
    }

    /// Whether the member at `member` has reported the expected group.
    pub fn is_stabilized(&self, member: usize) -> (r: bool)
        requires
            self.wf(),
        ensures
            r == (member < self@.stabilized.len() && self@.stabilized[member as int]),
    {
        member < self.stabilized.len() && self.stabilized[member]
    }

    /// The view that the member at `member` reported last, if it reported one.
    pub fn observed(&self, member: usize) -> (r: Option<&Vec<String>>)
        requires
            self.wf(),
        ensures
            match r {
                Some(list) => member < self@.observed.len() && self@.observed[member as int] == Some(
                    texts(list@),
                ),
                None => member >= self@.observed.len() || self@.observed[member as int] is None,
            },
    {
        if member < self.observed.len() {
            self.observed[member].as_ref()
        } else {
            None
        }
    }

    /// The failure with the name of the member that it is about.
    pub fn unsettled(&self, error: MembershipError) -> (r: Unsettled)
        ensures
            r@ == unsettled_by(self@.group, error),
    {
        let member = match error {
            MembershipError::NoResponse { member } => Some(member),
            MembershipError::WrongType { member } => Some(member),
            MembershipError::Malformed { member } => Some(member),
            _ => None,
        };
        let node = match member {
            Some(member) => {
                if member < self.group.len() {
                    assert(texts(self.group@)[member as int] == self.group[member as int]@);
                    Some(self.group[member].clone())
                } else {
                    None
                }
            },
            None => None,
        };
        Unsettled { error, node }
    }

    /// Whether every member has reported the expected group.
    pub fn stabilized_all(&self) -> (r: bool)
        ensures
            r == all_stabilized(self@),
    {
        let mut i: usize = 0;
        while i < self.stabilized.len()
            invariant
                i <= self.stabilized.len(),
                forall|k: int| 0 <= k < i ==> self.stabilized@[k],
            decreases self.stabilized.len() - i,
        {
            if !self.stabilized[i] {
                assert(!self@.stabilized[i as int]);
                return false;
            }
            i += 1;
        }
        true
    }

    fn finish(&mut self) -> (a: Action)
        requires
            consistent(old(self)@),
        ensures
            final(self).wf(),
            (final(self)@, a) == (
                StabilizerView { phase: Phase::Done, ..old(self)@ },
                Action::Finish(final_verdict(old(self)@)),
            ),
    {
        let verdict = if self.stabilized_all() {
            Ok(true)
        } else {
            Err(MembershipError::NotStabilized)
        };
        self.phase = Phase::Done;
        Action::Finish(verdict)
    }

    fn stop(&mut self, e: MembershipError) -> (a: Action)
        requires
            consistent(old(self)@),
        ensures
            final(self).wf(),
            (final(self)@, a) == fail(old(self)@, e),
    {
        self.phase = Phase::Done;
        Action::Finish(Err(e))
    }

    fn head(&mut self) -> (a: Action)
        requires
            consistent(old(self)@),
        ensures
            final(self).wf(),
            (final(self)@, a) == round_head(old(self)@),
    {
        if !self.stabilized_all() && self.steps <= self.max_steps as u64 {
            self.phase = Phase::Advancing;
            Action::Advance { steps: self.steps_per_iter }
        } else {
            self.finish()
        }
    }

    fn ask(&mut self, from: usize, more: bool) -> (a: Action)
        requires
            consistent(old(self)@),
            from <= old(self)@.group.len(),
        ensures
            final(self).wf(),
            (final(self)@, a) == ask_from(old(self)@, from as int, more),
    {
        let mut member = from;
        while member < self.stabilized.len() && self.stabilized[member]
            invariant
                from <= member <= self.stabilized.len(),
                next_pending(self.stabilized@, member as int) == next_pending(
                    self.stabilized@,
                    from as int,
                ),
            decreases self.stabilized.len() - member,
        {
            member += 1;
        }
        if member < self.stabilized.len() {
            self.phase = Phase::Asking { member, more };
            Action::Ask { member, max_steps: self.max_steps }
        } else if more {
            self.head()
        } else {
            self.finish()
        }
    }

    /// The oracle's step: takes what happened and says what to do next.
    pub fn step(&mut self, event: Event) -> (a: Action)
        requires
            old(self).wf(),
        ensures
            final(self).wf(),
            (final(self)@, a) == next(old(self)@, event@),
    {
        match (self.phase, event) {
            (Phase::Fresh, Event::Start) => self.head(),
            (Phase::Advancing, Event::Advanced { more }) => {
                self.steps = self.steps + self.steps_per_iter as u64;
                self.ask(0, more)
            },
            (Phase::Asking { member, more }, Event::Timeout) => self.stop(
                MembershipError::NoResponse { member },
            ),
            (Phase::Asking { member, more }, Event::Reply(reply)) => {
                let expected = text_of("MEMBERS");
                if !(reply.tag == expected) {
                    return self.stop(MembershipError::WrongType { member });
                }
                match reply.members {
                    None => self.stop(MembershipError::Malformed { member }),
                    Some(list) => {
                        let ghost before = self@;
                        assert(member < self.stabilized.len());
                        if same_members(&list, &self.group) {
                            self.stabilized.set(member, true);
                        }
                        self.observed.set(member, Some(list));
                        proof {
                            assert(observed_views(self.observed@) == before.observed.update(
                                member as int,
                                Some(texts(list@)),
                            ));
                            let now = self@;
                            assert forall|i: int|
                                0 <= i < now.group.len() && #[trigger] now.stabilized[i] implies earned(
                                now.observed[i],
                                now.group,
                            ) by {
                                if i != member {
                                    assert(before.stabilized[i]);
                                }
                            }
                        }
                        self.ask(member + 1, more)
                    },
                }
            },
            _ => self.stop(MembershipError::OutOfTurn),
        }
    }
}

/// A member is marked only on reporting the expected group, and no mark is ever
/// taken back.
pub proof fn lemma_marks_are_earned(s: StabilizerView, e: EventView, i: int)
    requires
        well_formed(s),
        0 <= i < s.group.len(),
    ensures
        next(s, e).0.stabilized.len() == s.stabilized.len(),
        s.stabilized[i] ==> next(s, e).0.stabilized[i],
        !s.stabilized[i] && next(s, e).0.stabilized[i] ==> {
            &&& s.phase matches Phase::Asking { member, .. }
            &&& member == i
            &&& e matches EventView::Reply(reply)
            &&& reply.members matches Some(list)
            &&& list.to_set() == s.group.to_set()
        },
{
}

/// A run is only accepted once every member has reported the expected group.
pub proof fn lemma_accepted_means_stabilized(s: StabilizerView, e: EventView)
    requires
        well_formed(s),
        next(s, e).1 == Action::Finish(Ok::<bool, MembershipError>(true)),
    ensures
        all_stabilized(next(s, e).0),
{
}

/// A step keeps a well-formed state well formed.
pub proof fn lemma_next_well_formed(s: StabilizerView, e: EventView)
    requires
        well_formed(s),
    ensures
        well_formed(next(s, e).0),
{
    match (s.phase, e) {
        (Phase::Advancing, EventView::Advanced { more }) => {
            lemma_next_pending(s.stabilized, 0);
        },
        (Phase::Asking { member, more }, EventView::Reply(reply)) => {
            if reply.tag == members_tag() && reply.members is Some {
                let list = reply.members->0;
                let marks = if list.to_set() == s.group.to_set() {
                    s.stabilized.update(member as int, true)
                } else {
                    s.stabilized
                };
                lemma_next_pending(marks, member + 1);
                let told = StabilizerView {
                    stabilized: marks,
                    observed: s.observed.update(member as int, Some(list)),
                    ..s
                };
                assert forall|i: int|
                    0 <= i < told.group.len() && #[trigger] told.stabilized[i] implies earned(
                    told.observed[i],
                    told.group,
                ) by {
                    if i != member {
                        assert(s.stabilized[i]);
                    }
                }
                assert(consistent(told));
                let after = next(s, e).0;
                assert(after.stabilized == told.stabilized && after.observed == told.observed
                    && after.group == told.group);
                assert forall|i: int|
                    0 <= i < after.group.len() && #[trigger] after.stabilized[i] implies earned(
                    after.observed[i],
                    after.group,
                ) by {
                    assert(told.stabilized[i]);
                }
            }
        },
        _ => {},
    }
}

/// The view that a member reported last is the one that the state keeps for it:
/// an answer with a member list takes the place of what was kept for the member
/// asked, and nothing else changes what is kept.
pub proof fn lemma_observed_is_last(s: StabilizerView, e: EventView, i: int)
    requires
        well_formed(s),
        0 <= i < s.group.len(),
    ensures
        next(s, e).0.group == s.group,
        next(s, e).0.observed.len() == s.observed.len(),
        next(s, e).0.observed[i] == match (s.phase, e) {
            (Phase::Asking { member, .. }, EventView::Reply(reply)) => if member == i && reply.tag
                == members_tag() && reply.members is Some {
                reply.members
            } else {
                s.observed[i]
            },
            _ => s.observed[i],
        },
{
}

/// A run is accepted only where the view that each member of the group
/// reported last is the expected group, as a set.
pub proof fn lemma_accepted_views(s: StabilizerView, e: EventView)
    requires
        well_formed(s),
        next(s, e).1 == Action::Finish(Ok::<bool, MembershipError>(true)),
    ensures
        forall|i: int|
            0 <= i < s.group.len() ==> earned(#[trigger] next(s, e).0.observed[i], s.group),
{
    lemma_next_well_formed(s, e);
    let after = next(s, e).0;
    assert(all_stabilized(after));
    assert(after.group == s.group);
    assert forall|i: int| 0 <= i < s.group.len() implies earned(
        #[trigger] after.observed[i],
        s.group,
    ) by {
        assert(after.stabilized[i]);
    }
}

/// The budget bounds the run: the simulation is advanced only while the steps
/// granted so far do not exceed `max_steps`, and each advance grants
/// `steps_per_iter` more.
pub proof fn lemma_budget(s: StabilizerView, e: EventView)
    requires
        well_formed(s),
    ensures
        next(s, e).1 is Advance ==> next(s, e).0.steps <= s.max_steps && next(s, e).1
            == (Action::Advance { steps: s.steps_per_iter }),
        s.phase is Advancing && e is Advanced ==> next(s, e).0.steps == s.steps + s.steps_per_iter,
        !(s.phase is Advancing && e is Advanced) ==> next(s, e).0.steps == s.steps,
{
}

/// Where the last pending member reports the expected group, the run is accepted
/// at once.
pub proof fn lemma_last_report_accepts(s: StabilizerView, reply: MembersReplyView)
    requires
        well_formed(s),
        s.phase matches Phase::Asking { member, .. } && forall|i: int|
            0 <= i < s.stabilized.len() && i != member ==> s.stabilized[i],
        reply.tag == members_tag(),
        reply.members matches Some(list) && list.to_set() == s.group.to_set(),
    ensures
        next(s, EventView::Reply(reply)).1 == Action::Finish(Ok::<bool, MembershipError>(true)),
{
    let member = s.phase->member;
    let more = s.phase->more;
    let marks = s.stabilized.update(member as int, true);
    lemma_next_pending(marks, member + 1);
    let t = StabilizerView {
        stabilized: marks,
        observed: s.observed.update(member as int, reply.members),
        ..s
    };
    assert(all_stabilized(t));
    assert(next_pending(marks, member + 1) == marks.len()) by {
        if next_pending(marks, member + 1) < marks.len() {
            assert(!marks[next_pending(marks, member + 1)]);
        }
    }
}

/// The answer of a member that reports exactly the expected group.
pub open spec fn full_view(s: StabilizerView) -> EventView {
    EventView::Reply(MembersReplyView { tag: members_tag(), members: Some(s.group) })
}

/// The state after `k` members in a row answered with the full view.
pub open spec fn after_full_views(s: StabilizerView, k: nat) -> StabilizerView
    decreases k,
{
    if k == 0 {
        s
    } else {
        next(after_full_views(s, (k - 1) as nat), full_view(s)).0
    }
}

/// A fresh run of a group that is not empty begins by advancing the simulation
/// and then asks the first member.
pub proof fn lemma_run_begins(s: StabilizerView, more: bool)
    requires
        well_formed(s),
        s.phase == Phase::Fresh,
        s.steps == 0,
        s.group.len() > 0,
        forall|i: int| 0 <= i < s.stabilized.len() ==> !s.stabilized[i],
    ensures
        next(s, EventView::Start).1 == (Action::Advance { steps: s.steps_per_iter }),
        next(next(s, EventView::Start).0, EventView::Advanced { more }).1 == (Action::Ask {
            member: 0,
            max_steps: s.max_steps,
        }),
        next(next(s, EventView::Start).0, EventView::Advanced { more }).0.phase == (Phase::Asking {
            member: 0,
            more,
        }),
        next(next(s, EventView::Start).0, EventView::Advanced { more }).0.stabilized == s.stabilized,
        next(next(s, EventView::Start).0, EventView::Advanced { more }).0.group == s.group,
{
    assert(!s.stabilized[0]);
    assert(!all_stabilized(s));
}

/// Where every member reports the expected group, the members are asked one
/// after the other in the first round, each is marked on its answer, and the run
/// is accepted on the answer of the last: a group that has converged is found to
/// have converged within one round of polling.
pub proof fn lemma_full_views_converge(s: StabilizerView, more: bool, k: nat)
    requires
        well_formed(s),
        s.phase == (Phase::Asking { member: 0, more }),
        forall|i: int| 0 <= i < s.stabilized.len() ==> !s.stabilized[i],
        k <= s.group.len(),
    ensures
        well_formed(after_full_views(s, k)),
        after_full_views(s, k).group == s.group,
        after_full_views(s, k).max_steps == s.max_steps,
        after_full_views(s, k).steps == s.steps,
        forall|i: int| 0 <= i < s.group.len() ==> after_full_views(s, k).stabilized[i] == (i < k),
        k < s.group.len() ==> after_full_views(s, k).phase == (Phase::Asking {
            member: k as usize,
            more,
        }),
        0 < k < s.group.len() ==> next(after_full_views(s, (k - 1) as nat), full_view(s)).1 == (
        Action::Ask { member: k as usize, max_steps: s.max_steps }),
        0 < k == s.group.len() ==> next(after_full_views(s, (k - 1) as nat), full_view(s)).1
            == Action::Finish(Ok::<bool, MembershipError>(true)),
    decreases k,
{
    if k > 0 {
        lemma_full_views_converge(s, more, (k - 1) as nat);
        let before = after_full_views(s, (k - 1) as nat);
        let member = (k - 1) as int;
        assert(before.phase == (Phase::Asking { member: member as usize, more }));
        let marks = before.stabilized.update(member, true);
        let told = StabilizerView {
            stabilized: marks,
            observed: before.observed.update(member, Some(s.group)),
            ..before
        };
        lemma_next_pending(marks, member + 1);
        lemma_next_well_formed(before, full_view(s));
        assert(s.group.to_set() == before.group.to_set());
        assert(next(before, full_view(s)) == ask_from(told, member + 1, more));
        assert forall|i: int| 0 <= i < s.group.len() implies marks[i] == (i < k) by {
            assert(before.stabilized[i] == (i < k - 1));
        }
        if k < s.group.len() {
            assert(!marks[k as int]);
            assert(next_pending(marks, member + 1) == k);
        } else {
            assert(all_stabilized(told));
            assert(next_pending(marks, member + 1) == marks.len()) by {
                if next_pending(marks, member + 1) < marks.len() {
                    assert(!marks[next_pending(marks, member + 1)]);
                }
            }
        }
    }
}

} // verus!
