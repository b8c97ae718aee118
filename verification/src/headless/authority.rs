//! Query authority: the one attach on a terminal that answers its queries.

use vstd::prelude::*;

use super::state::{ControlConnectionState, ControlEffect, HeadlessServer};
use crate::schema::TerminalQueryAuthority;
use crate::text::same_text;

verus! {

/// An attach that offered to answer a terminal's queries.
#[verifier::ext_equal]
pub struct CandidateModel {
    pub connection_id: u64,
    pub attach_id: Seq<char>,
    pub protocol: u32,
    /// Its place among the attaches of all connections.
    pub order: u64,
}

struct Candidate {
    connection_id: u64,
    attach_id: String,
    protocol: u32,
    order: u64,
}

impl View for Candidate {
    type V = CandidateModel;

    closed spec fn view(&self) -> CandidateModel {
        CandidateModel {
            connection_id: self.connection_id,
            attach_id: self.attach_id@,
            protocol: self.protocol,
            order: self.order,
        }
    }
}

spec fn candidate_views(candidates: Seq<Candidate>) -> Seq<CandidateModel> {
    Seq::new(candidates.len(), |i: int| candidates[i]@)
}

/// Candidates that are asked before others.
#[derive(Clone, Copy)]
pub enum AnsweringGroup {
    /// Attaches on protocol 1: they cannot be told to stop.
    Exclusive,
    /// Attaches of the connection that sizes the tab, if one does.
    Sizing { controller: Option<u64> },
    Everyone,
}

impl AnsweringGroup {
    /// Whether a candidate belongs to the group.
    pub open spec fn takes(self, candidate: CandidateModel) -> bool {
        match self {
            AnsweringGroup::Exclusive => candidate.protocol <= 1,
            AnsweringGroup::Sizing { controller } => Some(candidate.connection_id) == controller,
            AnsweringGroup::Everyone => true,
        }
    }

    /// Whether the candidate at `k` is the oldest of the group (the first on a
    /// tie).
    pub open spec fn is_oldest(self, candidates: Seq<CandidateModel>, k: int) -> bool {
        &&& 0 <= k < candidates.len()
        &&& self.takes(candidates[k])
        &&& forall|j: int|
            0 <= j < candidates.len() && self.takes(#[trigger] candidates[j])
                ==> candidates[k].order < candidates[j].order || (candidates[k].order
                == candidates[j].order && k <= j)
    }

    /// The oldest candidate of the group.
    pub open spec fn oldest(self, candidates: Seq<CandidateModel>) -> Option<CandidateModel> {
        if exists|k: int| self.is_oldest(candidates, k) {
            Some(candidates[choose|k: int| self.is_oldest(candidates, k)])
        } else {
            None
        }
    }
}

/// Of the candidates the one that answers: the oldest protocol 1 attach first
/// (it cannot be told to stop), then the oldest attach of the tab's geometry
/// controller, then the oldest attach.
pub open spec fn pick_candidate(
    candidates: Seq<CandidateModel>,
    controller: Option<u64>,
) -> Option<Seq<char>> {
    match AnsweringGroup::Exclusive.oldest(candidates) {
        Some(c) => Some(c.attach_id),
        None => match (AnsweringGroup::Sizing { controller }).oldest(candidates) {
            Some(c) => Some(c.attach_id),
            None => match AnsweringGroup::Everyone.oldest(candidates) {
                Some(c) => Some(c.attach_id),
                None => None,
            },
        },
    }
}

/// A group has one oldest candidate at most.
pub proof fn lemma_oldest_unique(
    group: AnsweringGroup,
    candidates: Seq<CandidateModel>,
    k: int,
)
    requires
        group.is_oldest(candidates, k),
    ensures
        group.oldest(candidates) == Some(candidates[k]),
{
    let j = choose|j: int| group.is_oldest(candidates, j);
    assert(group.is_oldest(candidates, j));
    assert(group.takes(candidates[k]));
    assert(group.takes(candidates[j]));
}

/// A group with a candidate has an oldest one.
pub proof fn lemma_oldest_exists(
    group: AnsweringGroup,
    candidates: Seq<CandidateModel>,
    k: int,
) -> (oldest: int)
    requires
        0 <= k < candidates.len(),
        group.takes(candidates[k]),
    ensures
        group.is_oldest(candidates, oldest),
    decreases candidates.len(),
{
    let rest = candidates.drop_last();
    let last = candidates.len() - 1;
    if exists|j: int| 0 <= j < rest.len() && group.takes(#[trigger] rest[j]) {
        let j = choose|j: int| 0 <= j < rest.len() && group.takes(#[trigger] rest[j]);
        let m = lemma_oldest_exists(group, rest, j);
        let found: int = if group.takes(candidates[last]) && candidates[last].order
            < candidates[m].order {
            last
        } else {
            m
        };
        assert forall|l: int| 0 <= l < candidates.len() && group.takes(
            #[trigger] candidates[l],
        ) implies candidates[found].order < candidates[l].order || (candidates[found].order
            == candidates[l].order && found <= l) by {
            if l < last {
                assert(rest[l] == candidates[l]);
            }
        }
        assert(rest[m] == candidates[m]);
        assert(group.is_oldest(candidates, found));
        found
    } else {
        assert forall|l: int| 0 <= l < candidates.len() && group.takes(
            #[trigger] candidates[l],
        ) implies l == last by {
            if l < last {
                assert(rest[l] == candidates[l]);
            }
        }
        assert(group.is_oldest(candidates, last));
        last
    }
}

/// Whether one of the attaches has that id and is on that terminal.
pub open spec fn attached_to(
    attaches: Seq<super::state::AttachModel>,
    terminal_id: Seq<char>,
    attach_id: Seq<char>,
) -> bool {
    exists|i: int|
        0 <= i < attaches.len() && (#[trigger] attaches[i]).terminal_id == terminal_id
            && attaches[i].attach_id == attach_id
}

/// An attach once its terminal's answering attach was picked.
pub open spec fn told_attach(
    attach: super::state::AttachModel,
    terminal_id: Seq<char>,
    chosen: Option<Seq<char>>,
) -> super::state::AttachModel {
    if attach.terminal_id == terminal_id {
        super::state::AttachModel {
            answers_queries: chosen == Some(attach.attach_id),
            ..attach
        }
    } else {
        attach
    }
}

/// The input entries once a terminal's answering attach was picked.
pub open spec fn told_inputs(
    inputs: Map<Seq<char>, crate::control::InputEntry>,
    attaches: Seq<super::state::AttachModel>,
    terminal_id: Seq<char>,
    chosen: Option<Seq<char>>,
    now: u64,
) -> Map<Seq<char>, crate::control::InputEntry> {
    Map::new(
        |k: Seq<char>| inputs.contains_key(k),
        |k: Seq<char>|
            if attached_to(attaches, terminal_id, k) {
                inputs[k].with_authority(chosen == Some(k), now)
            } else {
                inputs[k]
            },
    )
}

impl super::state::ConnectionModel {
    /// Whether an attach offered to answer the terminal's queries.
    pub open spec fn offers(
        attach: super::state::AttachModel,
        terminal_id: Seq<char>,
    ) -> bool {
        attach.terminal_id == terminal_id && attach.answer_queries
            == TerminalQueryAuthority::Client
    }

    /// The connection's attaches that offered to answer the terminal's
    /// queries.
    pub open spec fn candidates(self, terminal_id: Seq<char>) -> Seq<CandidateModel> {
        self.attaches.filter(|a: super::state::AttachModel| Self::offers(a, terminal_id)).map_values(
            |a: super::state::AttachModel|
                CandidateModel {
                    connection_id: self.connection_id,
                    attach_id: a.attach_id,
                    protocol: self.protocol,
                    order: a.order,
                },
        )
    }

    /// The connection once the terminal's answering attach was picked.
    pub open spec fn told(
        self,
        terminal_id: Seq<char>,
        chosen: Option<Seq<char>>,
        now: u64,
    ) -> super::state::ConnectionModel {
        super::state::ConnectionModel {
            attaches: self.attaches.map_values(
                |a: super::state::AttachModel| told_attach(a, terminal_id, chosen),
            ),
            handle: crate::control::HandleModel {
                inputs: told_inputs(self.handle.inputs, self.attaches, terminal_id, chosen, now),
                ..self.handle
            },
            ..self
        }
    }
}

impl super::state::ServerModel {
    /// Every attach that offered to answer the terminal's queries, connection
    /// by connection.
    pub open spec fn candidates(self, terminal_id: Seq<char>) -> Seq<CandidateModel> {
        self.control_connections.flat_map(
            |c: super::state::ConnectionModel| c.candidates(terminal_id),
        )
    }

    /// The attach that answers the terminal's queries.
    pub open spec fn query_authority(self, terminal_id: Seq<char>) -> Option<Seq<char>> {
        pick_candidate(
            self.candidates(terminal_id),
            match self.shell_geometry_controller_for_terminal(terminal_id) {
                Some((controller, _)) => Some(controller),
                None => None,
            },
        )
    }

    /// The server once the terminal's answering attach was picked anew.
    pub open spec fn synced_query_authority(
        self,
        terminal_id: Seq<char>,
    ) -> super::state::ServerModel {
        let chosen = self.query_authority(terminal_id);
        let told = self.with_connections(
            self.control_connections.map_values(
                |c: super::state::ConnectionModel| c.told(terminal_id, chosen, self.now),
            ),
        );
        if self.app.running(terminal_id) {
            told.with_effect(
                super::state::EffectModel::SetRawQueryAuthority { terminal_id, attach_id: chosen },
            )
        } else {
            told
        }
    }

    /// The server once the answering attach of each terminal was picked anew.
    pub open spec fn synced_query_authorities(
        self,
        terminals: Seq<Seq<char>>,
    ) -> super::state::ServerModel
        decreases terminals.len(),
    {
        if terminals.len() == 0 {
            self
        } else {
            self.synced_query_authorities(terminals.drop_last()).synced_query_authority(
                terminals.last(),
            )
        }
    }
}

impl ControlConnectionState {
    fn push_candidates(&self, terminal_id: &str, candidates: &mut Vec<Candidate>)
        ensures
            candidate_views(final(candidates)@) == candidate_views(old(candidates)@)
                + self@.candidates(terminal_id@),
    {
        let ghost offers = |a: super::state::AttachModel|
            super::state::ConnectionModel::offers(a, terminal_id@);
        let ghost entry = |a: super::state::AttachModel|
            CandidateModel {
                connection_id: self@.connection_id,
                attach_id: a.attach_id,
                protocol: self@.protocol,
                order: a.order,
            };
        let ghost before = candidate_views(candidates@);
        let mut i: usize = 0;
        proof {
            assert(self@.attaches.take(0) =~= Seq::empty());
            assert(before + self@.attaches.take(0).filter(offers).map_values(entry) =~= before);
        }
        while i < self.attaches.len()
            invariant
                0 <= i <= self.attaches.len(),
                offers == (|a: super::state::AttachModel|
                    super::state::ConnectionModel::offers(a, terminal_id@)),
                entry == (|a: super::state::AttachModel|
                    CandidateModel {
                        connection_id: self@.connection_id,
                        attach_id: a.attach_id,
                        protocol: self@.protocol,
                        order: a.order,
                    }),
                candidate_views(candidates@) == before + self@.attaches.take(i as int).filter(
                    offers,
                ).map_values(entry),
            decreases self.attaches.len() - i,
        {
            let attach = &self.attaches[i];
            let ghost taken = self@.attaches.take(i as int);
            let ghost kept = taken.filter(offers);
            let ghost so_far = candidate_views(candidates@);
            proof {
                assert(self@.attaches.take(i + 1) =~= taken.push(attach@));
                taken.lemma_filter_push(attach@, offers);
                assert(self@.attaches[i as int] == attach@);
            }
            if attach.answer_queries == TerminalQueryAuthority::Client && same_text(
                attach.terminal_id.as_str(),
                terminal_id,
            ) {
                candidates.push(
                    Candidate {
                        connection_id: self.connection_id,
                        attach_id: attach.attach_id.clone(),
                        protocol: self.protocol,
                        order: attach.order,
                    },
                );
                proof {
                    assert(offers(attach@));
                    assert(candidate_views(candidates@) =~= so_far.push(entry(attach@)));
                    assert(kept.push(attach@).map_values(entry) =~= kept.map_values(entry).push(
                        entry(attach@),
                    ));
                    assert((before + kept.map_values(entry)).push(entry(attach@)) =~= before
                        + kept.map_values(entry).push(entry(attach@)));
                }
            } else {
                assert(!offers(attach@));
            }
            i += 1;
        }
        assert(self@.attaches.take(self.attaches.len() as int) =~= self@.attaches);
    }

    /// Records which attach answers the terminal's queries.
    fn tell(&mut self, terminal_id: &str, chosen: &Option<String>, now: u64)
        ensures
            final(self)@ == old(self)@.told(
                terminal_id@,
                crate::text::optional_text(*chosen),
                now,
            ),
    {
        let ghost picked = crate::text::optional_text(*chosen);
        let ghost attaches = self@.attaches;
        let ghost inputs = self@.handle.inputs;
        let mut i: usize = 0;
        assert(told_inputs(inputs, attaches.take(0), terminal_id@, picked, now) =~= inputs);
        while i < self.attaches.len()
            invariant
                0 <= i <= self.attaches.len(),
                self.attaches.len() == attaches.len(),
                attaches == old(self)@.attaches,
                inputs == old(self)@.handle.inputs,
                picked == crate::text::optional_text(*chosen),
                self@.connection_id == old(self)@.connection_id,
                self@.tab_geometry == old(self)@.tab_geometry,
                self@.next_attach == old(self)@.next_attach,
                self@.client == old(self)@.client,
                self@.protocol == old(self)@.protocol,
                self@.handle == (crate::control::HandleModel {
                    inputs: told_inputs(
                        inputs,
                        attaches.take(i as int),
                        terminal_id@,
                        picked,
                        now,
                    ),
                    ..old(self)@.handle
                }),
                forall|k: int|
                    0 <= k < i ==> #[trigger] self@.attaches[k] == told_attach(
                        attaches[k],
                        terminal_id@,
                        picked,
                    ),
                forall|k: int| i <= k < attaches.len() ==> #[trigger] self@.attaches[k] == attaches[k],
            decreases self.attaches.len() - i,
        {
            let ghost before = self@;
            let ghost told_before = told_inputs(
                inputs,
                attaches.take(i as int),
                terminal_id@,
                picked,
                now,
            );
            let ghost current = attaches[i as int];
            assert(self@.attaches[i as int] == current);
            if same_text(self.attaches[i].terminal_id.as_str(), terminal_id) {
                let answers = match chosen {
                    Some(attach_id) => same_text(
                        attach_id.as_str(),
                        self.attaches[i].attach_id.as_str(),
                    ),
                    None => false,
                };
                assert(answers == (picked == Some(current.attach_id)));
                let attach_id = self.attaches[i].attach_id.clone();
                self.attaches[i].answers_queries = answers;
                self.handle.set_input_authority(attach_id.as_str(), answers, now);
                proof {
                    let id = current.attach_id;
                    let taken = attaches.take(i as int);
                    assert(attaches.take(i + 1) =~= taken.push(current));
                    assert forall|k: Seq<char>|
                        #[trigger] attached_to(taken.push(current), terminal_id@, k) == (attached_to(
                            taken,
                            terminal_id@,
                            k,
                        ) || k == id) by {
                        if attached_to(taken, terminal_id@, k) {
                            let j = choose|j: int|
                                0 <= j < taken.len() && (#[trigger] taken[j]).terminal_id
                                    == terminal_id@ && taken[j].attach_id == k;
                            assert(taken.push(current)[j] == taken[j]);
                        }
                        if k == id {
                            assert(taken.push(current)[taken.len() as int] == current);
                        }
                        if attached_to(taken.push(current), terminal_id@, k) {
                            let j = choose|j: int|
                                0 <= j < taken.push(current).len() && (#[trigger] taken.push(
                                    current,
                                )[j]).terminal_id == terminal_id@ && taken.push(
                                    current,
                                )[j].attach_id == k;
                            if j < taken.len() {
                                assert(taken[j] == taken.push(current)[j]);
                            }
                        }
                    }
                    assert(self@.handle.inputs =~= told_inputs(
                        inputs,
                        taken.push(current),
                        terminal_id@,
                        picked,
                        now,
                    ));
                    assert(self@.attaches =~= before.attaches.update(
                        i as int,
                        told_attach(current, terminal_id@, picked),
                    ));
                }
            } else {
                proof {
                    let taken = attaches.take(i as int);
                    assert(attaches.take(i + 1) =~= taken.push(current));
                    assert forall|k: Seq<char>| #[trigger]
                        attached_to(taken.push(current), terminal_id@, k) == attached_to(
                            taken,
                            terminal_id@,
                            k,
                        ) by {
                        if attached_to(taken, terminal_id@, k) {
                            let j = choose|j: int|
                                0 <= j < taken.len() && (#[trigger] taken[j]).terminal_id
                                    == terminal_id@ && taken[j].attach_id == k;
                            assert(taken.push(current)[j] == taken[j]);
                        }
                        if attached_to(taken.push(current), terminal_id@, k) {
                            let j = choose|j: int|
                                0 <= j < taken.push(current).len() && (#[trigger] taken.push(
                                    current,
                                )[j]).terminal_id == terminal_id@ && taken.push(
                                    current,
                                )[j].attach_id == k;
                            assert(taken[j] == taken.push(current)[j]);
                        }
                    }
                    assert(self@.handle.inputs =~= told_inputs(
                        inputs,
                        taken.push(current),
                        terminal_id@,
                        picked,
                        now,
                    ));
                }
            }
            i += 1;
        }
        proof {
            assert(attaches.take(attaches.len() as int) =~= attaches);
            assert(self@.attaches =~= old(self)@.told(terminal_id@, picked, now).attaches);
        }
    }
}

impl AnsweringGroup {
    fn holds(self, candidate: &Candidate) -> (holds: bool)
        ensures
            holds == self.takes(candidate@),
    {
        match self {
            AnsweringGroup::Exclusive => candidate.protocol <= 1,
            AnsweringGroup::Sizing { controller } => match controller {
                Some(controller) => candidate.connection_id == controller,
                None => false,
            },
            AnsweringGroup::Everyone => true,
        }
    }

    /// Finds the oldest candidate of the group.
    fn find_oldest(self, candidates: &Vec<Candidate>) -> (found: Option<String>)
        ensures
            crate::text::optional_text(found) == (match self.oldest(candidate_views(candidates@)) {
                Some(c) => Some(c.attach_id),
                None => None,
            }),
    {
        let ghost views = candidate_views(candidates@);
        let mut best: Option<usize> = None;
        let mut i: usize = 0;
        while i < candidates.len()
            invariant
                0 <= i <= candidates.len(),
                views == candidate_views(candidates@),
                match best {
                    Some(m) => {
                        &&& m < i
                        &&& self.takes(views[m as int])
                        &&& forall|j: int|
                            0 <= j < i && self.takes(#[trigger] views[j])
                                ==> views[m as int].order < views[j].order || (
                            views[m as int].order == views[j].order && m <= j)
                    },
                    None => forall|j: int| 0 <= j < i ==> !self.takes(#[trigger] views[j]),
                },
            decreases candidates.len() - i,
        {
            assert(views[i as int] == candidates@[i as int]@);
            if self.holds(&candidates[i]) {
                let older = match best {
                    Some(m) => {
                        assert(views[m as int] == candidates@[m as int]@);
                        candidates[i].order < candidates[m].order
                    },
                    None => true,
                };
                if older {
                    best = Some(i);
                }
            }
            i += 1;
        }
        match best {
            Some(m) => {
                proof {
                    assert(self.is_oldest(views, m as int));
                    lemma_oldest_unique(self, views, m as int);
                    assert(views[m as int] == candidates@[m as int]@);
                }
                Some(candidates[m].attach_id.clone())
            },
            None => {
                proof {
                    if let Some(_) = self.oldest(views) {
                        let k = choose|k: int| self.is_oldest(views, k);
                        assert(self.takes(views[k]));
                    }
                }
                None
            },
        }
    }
}

fn pick(candidates: &Vec<Candidate>, controller: Option<u64>) -> (chosen: Option<String>)
    ensures
        crate::text::optional_text(chosen) == pick_candidate(
            candidate_views(candidates@),
            controller,
        ),
{
    if let Some(attach_id) = AnsweringGroup::Exclusive.find_oldest(candidates) {
        return Some(attach_id);
    }
    let sizing = AnsweringGroup::Sizing { controller };
    if let Some(attach_id) = sizing.find_oldest(candidates) {
        return Some(attach_id);
    }
    AnsweringGroup::Everyone.find_oldest(candidates)
}

impl HeadlessServer {
    /// Picks the one attach on a terminal that answers its queries: a
    /// protocol 1 attach first (it cannot be told to stop), then the tab's
    /// geometry controller, then the oldest client-authority attach.
    pub fn sync_query_authority(&mut self, terminal_id: &str)
        ensures
            final(self)@ == old(self)@.synced_query_authority(terminal_id@),
    {
        let controller: Option<u64> = match self.shell_geometry_controller_for_terminal(
            terminal_id,
        ) {
            Some((controller_id, _)) => Some(controller_id),
            None => None,
        };
        let ghost offered = |c: super::state::ConnectionModel| c.candidates(terminal_id@);
        let ghost connections = self@.control_connections;
        let mut candidates: Vec<Candidate> = Vec::new();
        let mut i: usize = 0;
        proof {
            assert(connections.take(0).flat_map(offered) =~= Seq::empty());
            assert(candidate_views(candidates@) =~= Seq::empty());
        }
        while i < self.control_connections.len()
            invariant
                0 <= i <= self.control_connections.len(),
                *self == *old(self),
                connections == self@.control_connections,
                offered == (|c: super::state::ConnectionModel| c.candidates(terminal_id@)),
                candidate_views(candidates@) == connections.take(i as int).flat_map(offered),
            decreases self.control_connections.len() - i,
        {
            self.control_connections[i].push_candidates(terminal_id, &mut candidates);
            proof {
                connections.lemma_flat_map_take_append(offered, i as int);
            }
            i += 1;
        }
        assert(connections.take(connections.len() as int) =~= connections);
        let chosen = pick(&candidates, controller);
        let ghost picked = crate::text::optional_text(chosen);
        let now: u64 = self.now;
        let mut j: usize = 0;
        while j < self.control_connections.len()
            invariant
                0 <= j <= self.control_connections.len(),
                self.control_connections.len() == connections.len(),
                connections == old(self)@.control_connections,
                now == old(self)@.now,
                picked == crate::text::optional_text(chosen),
                self@ == old(self)@.with_connections(self@.control_connections),
                forall|k: int|
                    0 <= k < j ==> #[trigger] self@.control_connections[k] == connections[k].told(
                        terminal_id@,
                        picked,
                        now,
                    ),
                forall|k: int|
                    j <= k < connections.len() ==> #[trigger] self@.control_connections[k]
                        == connections[k],
            decreases self.control_connections.len() - j,
        {
            assert(self@.control_connections[j as int] == connections[j as int]);
            let ghost before = self@.control_connections;
            self.control_connections[j].tell(terminal_id, &chosen, now);
            proof {
                assert(self@.control_connections =~= before.update(
                    j as int,
                    connections[j as int].told(terminal_id@, picked, now),
                ));
            }
            j += 1;
        }
        proof {
            assert(self@.control_connections =~= connections.map_values(
                |c: super::state::ConnectionModel| c.told(terminal_id@, picked, now),
            ));
        }
        if self.app.control_runtime(terminal_id).is_some() {
            self.push_effect(
                ControlEffect::SetRawQueryAuthority {
                    terminal_id: terminal_id.to_owned(),
                    attach_id: chosen,
                },
            );
        }
    }
}

} // verus!
