//! Confirmation channel: the conduit for external approval decorators.
//!
//! A question goes in and is answered once, first in, first out. Whoever asked
//! holds the id of the question and reads the answer under it.

use vstd::prelude::*;

verus! {

/// One approval question shown in the overlay.
#[derive(Clone, Debug, PartialEq, Eq)]
pub struct ConfirmationRequest {
    pub title: String,
    pub body: String,
}

/// The user's answer. Closing the overlay (`Esc`) denies.
#[derive(Clone, Copy, Debug, PartialEq, Eq, Structural)]
pub enum ConfirmationResponse {
    Allow,
    Deny,
}

/// Identifies one request within the channel.
#[derive(Clone, Copy, Debug, PartialEq, Eq, Structural)]
pub struct ConfirmationId(pub u64);

/// A question that waits for its answer.
#[derive(Debug)]
pub struct PendingRequest {
    pub id: ConfirmationId,
    pub request: ConfirmationRequest,
}

/// A question as a mathematical value.
pub struct QuestionView {
    pub id: u64,
    pub title: Seq<char>,
    pub body: Seq<char>,
}

impl DeepView for PendingRequest {
    type V = QuestionView;

    open spec fn deep_view(&self) -> QuestionView {
        QuestionView { id: self.id.0, title: self.request.title@, body: self.request.body@ }
    }
}

/// An answer that has been given.
#[derive(Clone, Copy, Debug)]
pub struct Answer {
    pub id: ConfirmationId,
    pub response: ConfirmationResponse,
}

/// First-in-first-out question/answer channel between an external approval
/// decorator and the overlay.
#[derive(Debug)]
pub struct ConfirmationChannel {
    pub next_id: u64,
    pub queue: Vec<PendingRequest>,
    pub answers: Vec<Answer>,
}

/// The answers as a map from question to response.
pub open spec fn answer_map(answers: Seq<Answer>) -> Map<u64, ConfirmationResponse>
    decreases answers.len(),
{
    if answers.len() == 0 {
        Map::empty()
    } else {
        answer_map(answers.drop_last()).insert(answers.last().id.0, answers.last().response)
    }
}

/// The position of a question in the queue, or its length.
pub open spec fn position(queue: Seq<QuestionView>, id: u64) -> nat
    decreases queue.len(),
{
    if queue.len() == 0 || queue[0].id == id {
        0
    } else {
        1 + position(queue.skip(1), id)
    }
}

/// The answers with every question of the queue denied.
pub open spec fn all_denied(
    answers: Map<u64, ConfirmationResponse>,
    queue: Seq<QuestionView>,
) -> Map<u64, ConfirmationResponse>
    decreases queue.len(),
{
    if queue.len() == 0 {
        answers
    } else {
        all_denied(answers, queue.drop_last()).insert(queue.last().id, ConfirmationResponse::Deny)
    }
}

impl ConfirmationChannel {
    /// The questions that wait, oldest first.
    pub open spec fn waiting(&self) -> Seq<QuestionView> {
        self.queue.deep_view()
    }

    /// The answers given so far.
    pub open spec fn given(&self) -> Map<u64, ConfirmationResponse> {
        answer_map(self.answers@)
    }

    /// Questions wait in the order of their ids, which were all handed out here,
    /// and no waiting question has been answered.
    pub open spec fn wf(&self) -> bool {
        &&& forall|i: int|
            0 <= i < self.waiting().len() ==> 1 <= (#[trigger] self.waiting()[i]).id
                <= self.next_id
        &&& forall|i: int, j: int|
            0 <= i < j < self.waiting().len() ==> (#[trigger] self.waiting()[i]).id < (
            #[trigger] self.waiting()[j]).id
        &&& forall|id: u64| #[trigger] self.given().contains_key(id) ==> 1 <= id <= self.next_id
        &&& forall|i: int|
            0 <= i < self.waiting().len() ==> !self.given().contains_key(
                (#[trigger] self.waiting()[i]).id,
            )
    }

    pub fn new() -> (channel: ConfirmationChannel)
        ensures
            channel.wf(),
            channel.waiting() == Seq::<QuestionView>::empty(),
            channel.given() == Map::<u64, ConfirmationResponse>::empty(),
            channel.next_id == 0,
    {
        let channel = ConfirmationChannel { next_id: 0, queue: Vec::new(), answers: Vec::new() };
        proof {
            assert(channel.waiting() =~= Seq::<QuestionView>::empty());
        }
        channel
    }

    /// Submits a question; its answer is found under the id that comes back.
    pub fn request(&mut self, request: ConfirmationRequest) -> (id: ConfirmationId)
        requires
            old(self).wf(),
            old(self).next_id < u64::MAX,
        ensures
            final(self).wf(),
            id.0 == old(self).next_id + 1,
            final(self).next_id == id.0,
            final(self).waiting() == old(self).waiting().push(
                QuestionView { id: id.0, title: request.title@, body: request.body@ },
            ),
            final(self).given() == old(self).given(),
            !final(self).given().contains_key(id.0),
    {
        self.next_id = self.next_id + 1;
        let id = ConfirmationId(self.next_id);
        let pending = PendingRequest { id, request };
        self.queue.push(pending);
        proof {
            let before = old(self).waiting();
            assert(self.waiting() =~= before.push(pending.deep_view()));
            assert(self.given() == old(self).given());
            assert(!old(self).given().contains_key(id.0));
            assert forall|i: int| 0 <= i < self.waiting().len() implies 1 <= (
            #[trigger] self.waiting()[i]).id <= self.next_id && !self.given().contains_key(
                self.waiting()[i].id,
            ) by {
                if i < before.len() {
                    assert(self.waiting()[i] == before[i]);
                }
            }
            assert forall|i: int, j: int| 0 <= i < j < self.waiting().len() implies (
            #[trigger] self.waiting()[i]).id < (#[trigger] self.waiting()[j]).id by {
                assert(self.waiting()[i] == before[i]);
                if j < before.len() {
                    assert(self.waiting()[j] == before[j]);
                }
            }
        }
        id
    }

    /// The question currently at the front of the queue.
    pub fn front(&self) -> (front: Option<(ConfirmationId, ConfirmationRequest)>)
        ensures
            match front {
                Some((id, request)) => self.waiting().len() > 0 && self.waiting()[0] == (
                QuestionView { id: id.0, title: request.title@, body: request.body@ }),
                None => self.waiting().len() == 0,
            },
    {
        if self.queue.len() == 0 {
            return None;
        }
        let pending = &self.queue[0];
        let request = ConfirmationRequest {
            title: pending.request.title.clone(),
            body: pending.request.body.clone(),
        };
        Some((pending.id, request))
    }

    /// Answers a waiting question. Unknown ids are ignored (already answered or
    /// auto-denied).
    pub fn respond(&mut self, id: ConfirmationId, response: ConfirmationResponse)
        requires
            old(self).wf(),
        ensures
            final(self).wf(),
            final(self).next_id == old(self).next_id,
            position(old(self).waiting(), id.0) < old(self).waiting().len() ==> {
                &&& final(self).waiting() == old(self).waiting().remove(
                    position(old(self).waiting(), id.0) as int,
                )
                &&& final(self).given() == old(self).given().insert(id.0, response)
            },
            position(old(self).waiting(), id.0) >= old(self).waiting().len() ==> {
                &&& final(self).waiting() == old(self).waiting()
                &&& final(self).given() == old(self).given()
            },
    {
        let ghost before = self.waiting();
        let mut i: usize = 0;
        proof {
            assert(before.skip(0) =~= before);
        }
        while i < self.queue.len() && self.queue[i].id != id
            invariant
                i <= self.queue.len(),
                *self == *old(self),
                before == self.waiting(),
                position(before, id.0) == i + position(before.skip(i as int), id.0),
            decreases self.queue.len() - i,
        {
            proof {
                assert(before.skip(i as int)[0] == before[i as int]);
                assert(before.skip(i as int).skip(1) =~= before.skip(i as int + 1));
            }
            i += 1;
        }
        if i < self.queue.len() {
            proof {
                assert(before.skip(i as int)[0] == before[i as int]);
            }
            let pending = self.queue.remove(i);
            self.answers.push(Answer { id, response });
            proof {
                let k = i as int;
                assert(self.waiting() =~= before.remove(k));
                assert(self.answers@.drop_last() =~= old(self).answers@);
                let after = self.waiting();
                assert forall|j: int| 0 <= j < after.len() implies 1 <= (#[trigger] after[j]).id
                    <= self.next_id && !self.given().contains_key(after[j].id) by {
                    let source = if j < k {
                        j
                    } else {
                        j + 1
                    };
                    assert(after[j] == before[source]);
                    if source < k {
                        assert(before[source].id < before[k].id);
                    } else {
                        assert(before[k].id < before[source].id);
                    }
                }
                assert forall|a: int, b: int| 0 <= a < b < after.len() implies (
                #[trigger] after[a]).id < (#[trigger] after[b]).id by {
                    let x = if a < k {
                        a
                    } else {
                        a + 1
                    };
                    let y = if b < k {
                        b
                    } else {
                        b + 1
                    };
                    assert(after[a] == before[x] && after[b] == before[y]);
                }
                assert(1 <= before[k].id <= self.next_id);
            }
        } else {
            proof {
                assert(before.skip(i as int) =~= Seq::<QuestionView>::empty());
            }
        }
    }

    /// Auto-denies every waiting question: no question may outlive its
    /// operation.
    pub fn deny_all(&mut self)
        requires
            old(self).wf(),
        ensures
            final(self).wf(),
            final(self).next_id == old(self).next_id,
            final(self).waiting() == Seq::<QuestionView>::empty(),
            final(self).given() == all_denied(old(self).given(), old(self).waiting()),
    {
        let ghost before = self.waiting();
        let mut i: usize = 0;
        proof {
            assert(before.take(0) =~= Seq::<QuestionView>::empty());
        }
        while i < self.queue.len()
            invariant
                i <= self.queue.len(),
                self.queue == old(self).queue,
                self.next_id == old(self).next_id,
                before == old(self).waiting(),
                old(self).wf(),
                self.given() == all_denied(old(self).given(), before.take(i as int)),
                forall|id: u64| #[trigger]
                    self.given().contains_key(id) ==> 1 <= id <= self.next_id,
            decreases self.queue.len() - i,
        {
            let ghost answered = self.answers@;
            let id = self.queue[i].id;
            self.answers.push(Answer { id, response: ConfirmationResponse::Deny });
            proof {
                assert(self.answers@.drop_last() =~= answered);
                assert(before.take(i as int + 1).drop_last() =~= before.take(i as int));
                assert(before.take(i as int + 1).last() == before[i as int]);
                assert(before[i as int].id == id.0);
                assert(1 <= old(self).waiting()[i as int].id <= self.next_id);
            }
            i += 1;
        }
        self.queue = Vec::new();
        proof {
            assert(before.take(i as int) =~= before);
            assert(self.waiting() =~= Seq::<QuestionView>::empty());
        }
    }

    /// True when no question is waiting.
    pub fn is_idle(&self) -> (yes: bool)
        ensures
            yes == (self.waiting().len() == 0),
    {
        self.queue.len() == 0
    }

    /// The answer to a question, once it has been given.
    pub fn answer(&self, id: ConfirmationId) -> (answer: Option<ConfirmationResponse>)
        ensures
            match answer {
                Some(response) => self.given().contains_key(id.0) && self.given()[id.0]
                    == response,
                None => !self.given().contains_key(id.0),
            },
    {
        let mut i: usize = self.answers.len();
        proof {
            assert(self.answers@.take(i as int) =~= self.answers@);
        }
        while i > 0
            invariant
                i <= self.answers.len(),
                self.given().contains_key(id.0) == answer_map(
                    self.answers@.take(i as int),
                ).contains_key(id.0),
                self.given().contains_key(id.0) ==> self.given()[id.0] == answer_map(
                    self.answers@.take(i as int),
                )[id.0],
            decreases i,
        {
            proof {
                assert(self.answers@.take(i as int).drop_last() =~= self.answers@.take(i - 1));
                assert(self.answers@.take(i as int).last() == self.answers@[i - 1]);
            }
            i -= 1;
            if self.answers[i].id == id {
                return Some(self.answers[i].response);
            }
        }
        None
    }
}

impl Default for ConfirmationChannel {
    fn default() -> (channel: ConfirmationChannel)
        ensures
            channel.wf(),
            channel.waiting() == Seq::<QuestionView>::empty(),
            channel.given() == Map::<u64, ConfirmationResponse>::empty(),
    {
        ConfirmationChannel::new()
    }
}

// ---------------------------------------------------------------------------
// Laws
// ---------------------------------------------------------------------------

/// The oldest question stands first, so answering the front question answers
/// the one that has waited longest.
pub proof fn front_is_the_oldest(channel: &ConfirmationChannel, i: int)
    requires
        channel.wf(),
        0 < i < channel.waiting().len(),
    ensures
        channel.waiting()[0].id < channel.waiting()[i].id,
        position(channel.waiting(), channel.waiting()[0].id) == 0,
{
}

/// An answered id is unknown to the queue, so a second answer changes nothing.
pub proof fn answered_ids_are_unknown(queue: Seq<QuestionView>, id: u64)
    requires
        forall|i: int| 0 <= i < queue.len() ==> (#[trigger] queue[i]).id != id,
    ensures
        position(queue, id) == queue.len(),
    decreases queue.len(),
{
    if queue.len() > 0 {
        let rest = queue.skip(1);
        assert forall|i: int| 0 <= i < rest.len() implies (#[trigger] rest[i]).id != id by {
            assert(rest[i] == queue[i + 1]);
        }
        assert(queue[0].id != id);
        answered_ids_are_unknown(rest, id);
    }
}

/// Denying everything answers every question that waited, and keeps every answer
/// already given to another.
pub proof fn deny_all_answers_everything(
    answers: Map<u64, ConfirmationResponse>,
    queue: Seq<QuestionView>,
)
    ensures
        forall|i: int|
            0 <= i < queue.len() ==> all_denied(answers, queue).contains_key(
                (#[trigger] queue[i]).id,
            ) && all_denied(answers, queue)[queue[i].id] == ConfirmationResponse::Deny,
        forall|id: u64|
            answers.contains_key(id) && (forall|i: int|
                0 <= i < queue.len() ==> (#[trigger] queue[i]).id != id) ==> #[trigger] all_denied(
                answers,
                queue,
            ).contains_key(id) && all_denied(answers, queue)[id] == answers[id],
    decreases queue.len(),
{
    if queue.len() > 0 {
        let rest = queue.drop_last();
        deny_all_answers_everything(answers, rest);
        assert forall|i: int| 0 <= i < queue.len() implies all_denied(answers, queue).contains_key(
            (#[trigger] queue[i]).id,
        ) && all_denied(answers, queue)[queue[i].id] == ConfirmationResponse::Deny by {
            if i < rest.len() {
                assert(rest[i] == queue[i]);
            }
        }
        assert forall|id: u64|
            answers.contains_key(id) && (forall|i: int|
                0 <= i < queue.len() ==> (#[trigger] queue[i]).id != id) implies #[trigger] all_denied(
            answers,
            queue,
        ).contains_key(id) && all_denied(answers, queue)[id] == answers[id] by {
            assert(queue[queue.len() - 1].id != id);
            assert forall|i: int| 0 <= i < rest.len() implies (#[trigger] rest[i]).id != id by {
                assert(rest[i] == queue[i]);
            }
            assert(all_denied(answers, rest).contains_key(id));
        }
    }
}

} // verus!
