//! A round of tool calls: the guards that they pass, and the answers that they get.

use crate::line_format::{failed_prefix, rejected_prefix, ChatMessage, ToolCall, ToolResult};
use vstd::prelude::*;

verus! {

/// What became of a tool call
pub enum Fate {
    /// The first guard rejected it, for this reason, and it was not made
    Barred(Seq<char>),
    /// It was made, and the second guard rejected its result, for this reason
    Withheld(Seq<char>),
    /// It was made, with this result
    Made(Result<String, String>),
}

/// An answer to one of the calls
pub struct Answer {
    /// The number of the call
    pub call: int,
    /// What became of it
    pub fate: Fate,
}

/// Whether a message answers a call with what came of it: the result, or a note that it failed
/// and why.
pub open spec fn completes(message: ChatMessage, call: ToolCall, result: Result<String, String>) -> bool {
    message matches ChatMessage::Tool(answer) && answer.tool_call_id == Some(call.id)
        && match result {
        Ok(text) => answer.content == text,
        Err(error) => answer.content@ == failed_prefix() + error@,
    }
}

/// Whether a message answers a call with a note that it was not let through, and why.
pub open spec fn rejects(message: ChatMessage, call: ToolCall, reason: Seq<char>) -> bool {
    message matches ChatMessage::Tool(answer) && answer.tool_call_id == Some(call.id)
        && answer.content@ == rejected_prefix() + reason
}

/// Whether a message answers a call with what became of it.
pub open spec fn answers_with(message: ChatMessage, call: ToolCall, fate: Fate) -> bool {
    match fate {
        Fate::Barred(reason) => rejects(message, call, reason),
        Fate::Withheld(reason) => rejects(message, call, reason),
        Fate::Made(result) => completes(message, call, result),
    }
}

/// The error of the first call that was made and failed.
pub open spec fn first_failure(answers: Seq<Answer>) -> Option<Seq<char>>
    decreases answers.len(),
{
    if answers.len() == 0 {
        None
    } else {
        match first_failure(answers.drop_last()) {
            Some(error) => Some(error),
            None => match answers.last().fate {
                Fate::Made(Err(error)) => Some(error@),
                _ => None,
            },
        }
    }
}

/// A round of tool calls. Each is put to the first guard, in their order; those that are let through
/// are made then, and what they return is put to the second guard as it comes in.
pub struct CallRound {
    /// All calls of the round
    calls: Vec<ToolCall>,
    /// How many of them have been put to the first guard
    asked: usize,
    /// Which of them have been answered
    answered: Vec<bool>,
    /// The messages that answer them, in the order in which the answers came
    results: Vec<ChatMessage>,
    /// The error of the first call that was made and failed
    failure: Option<String>,
    /// The answers
    answers: Ghost<Seq<Answer>>,
}

impl CallRound {
    /// All calls of the round.
    pub closed spec fn calls(&self) -> Seq<ToolCall> {
        self.calls@
    }

    /// How many calls have been put to the first guard, the first of them first.
    pub closed spec fn asked(&self) -> nat {
        self.asked as nat
    }

    /// The answers so far.
    pub closed spec fn answers(&self) -> Seq<Answer> {
        self.answers@
    }

    /// The messages that give the answers.
    pub closed spec fn results(&self) -> Seq<ChatMessage> {
        self.results@
    }

    /// The numbers of the calls that have been answered.
    pub open spec fn order(&self) -> Seq<int> {
        Seq::new(self.answers().len(), |k: int| self.answers()[k].call)
    }

    /// Whether a call was let through by the first guard, and waits for its answer.
    pub open spec fn is_running(&self, i: int) -> bool {
        0 <= i < self.asked() && !self.order().contains(i)
    }

    /// Whether all calls have been put to the first guard, and none waits for its answer.
    pub open spec fn is_over(&self) -> bool {
        &&& self.asked() == self.calls().len()
        &&& forall|i: int| 0 <= i < self.calls().len() ==> self.order().contains(i)
    }

    /// Only calls that have been put to the first guard are answered, each once, and none is made
    /// before all have.
    pub closed spec fn valid(&self) -> bool {
        &&& self.asked <= self.calls@.len()
        &&& self.answered@.len() == self.calls@.len()
        &&& forall|i: int|
            0 <= i < self.calls@.len() ==> #[trigger] self.answered@[i] == self.order().contains(i)
        &&& self.order().no_duplicates()
        &&& self.results@.len() == self.answers@.len()
        &&& forall|k: int| #![trigger self.answers@[k]]
            0 <= k < self.answers@.len() ==> {
                &&& 0 <= self.answers@[k].call < self.asked
                &&& answers_with(
                    self.results@[k],
                    self.calls@[self.answers@[k].call],
                    self.answers@[k].fate,
                )
                &&& self.answers@[k].fate is Barred || self.asked == self.calls@.len()
            }
        &&& match self.failure {
            Some(error) => first_failure(self.answers@) == Some(error@),
            None => first_failure(self.answers@) is None,
        }
    }

    /// A round of the given calls, none of which has been put to the first guard.
    pub fn new(calls: Vec<ToolCall>) -> (r: Self)
        ensures
            r.valid(),
            r.calls() == calls@,
            r.asked() == 0,
            r.answers().len() == 0,
            r.results().len() == 0,
    {
        let mut answered: Vec<bool> = Vec::new();
        for i in 0..calls.len()
            invariant
                answered@.len() == i,
                forall|j: int| 0 <= j < i ==> !answered@[j],
        {
            answered.push(false);
        }
        CallRound {
            calls,
            asked: 0,
            answered,
            results: Vec::new(),
            failure: None,
            answers: Ghost(Seq::empty()),
        }
    }

    /// All calls of the round.
    pub fn all(&self) -> (r: &Vec<ToolCall>)
        ensures
            r@ == self.calls(),
    {
        &self.calls
    }

    /// The number of the call to be put to the first guard next, as long as there is one.
    pub fn next(&self) -> (r: Option<usize>)
        requires
            self.valid(),
        ensures
            match r {
                Some(i) => i == self.asked() && i < self.calls().len(),
                None => self.asked() == self.calls().len(),
            },
    {
        if self.asked < self.calls.len() {
            Some(self.asked)
        } else {
            None
        }
    }

    /// Whether call number `i` was let through by the first guard, and waits for its answer.
    pub fn running(&self, i: usize) -> (r: bool)
        requires
            self.valid(),
        ensures
            r == self.is_running(i as int),
    {
        i < self.asked && !self.answered[i]
    }

    /// Whether all calls have been put to the first guard, and none waits for its answer.
    pub fn over(&self) -> (r: bool)
        requires
            self.valid(),
        ensures
            r == self.is_over(),
    {
        if self.asked < self.calls.len() {
            return false;
        }
        for i in 0..self.answered.len()
            invariant
                self.valid(),
                forall|j: int| 0 <= j < i ==> self.order().contains(j),
        {
            if !self.answered[i] {
                assert(!self.order().contains(i as int));
                return false;
            }
        }
        true
    }

    /// The error of the first call that was made and failed, if one did.
    pub fn failure(&self) -> (r: Option<&String>)
        requires
            self.valid(),
        ensures
            match r {
                Some(error) => first_failure(self.answers()) == Some(error@),
                None => first_failure(self.answers()) is None,
            },
    {
        self.failure.as_ref()
    }

    /// The messages that give the answers.
    pub fn into_results(self) -> (r: Vec<ChatMessage>)
        ensures
            r@ == self.results(),
    {
        self.results
    }

    /// Takes down an answer, and the error where it tells of one.
    fn answer(
        &mut self,
        i: usize,
        message: ChatMessage,
        error: Option<String>,
        Ghost(fate): Ghost<Fate>,
    )
        requires
            old(self).valid(),
            old(self).is_running(i as int),
            answers_with(message, old(self).calls()[i as int], fate),
            fate is Barred || old(self).asked() == old(self).calls().len(),
            match fate {
                Fate::Made(Err(why)) => error matches Some(error) && error@ == why@,
                _ => error is None,
            },
        ensures
            final(self).valid(),
            final(self).calls() == old(self).calls(),
            final(self).asked() == old(self).asked(),
            final(self).answers() == old(self).answers().push(Answer { call: i as int, fate }),
            final(self).results() == old(self).results().push(message),
    {
        let ghost before = self.answers@;
        let ghost order = self.order();
        let ghost given = Answer { call: i as int, fate };
        self.answered.set(i, true);
        self.results.push(message);
        if self.failure.is_none() {
            self.failure = error;
        }
        self.answers = Ghost(self.answers@.push(given));
        proof {
            assert(self.answers@.drop_last() =~= before);
            assert(self.order() =~= order.push(i as int));
            assert forall|j: int| 0 <= j < self.calls@.len() implies #[trigger] self.answered@[j]
                == self.order().contains(j) by {
                assert(self.order().last() == i);
                if order.contains(j) {
                    assert(self.order()[order.index_of(j)] == j);
                }
                if self.order().contains(j) && j != i {
                    assert(order[self.order().index_of(j)] == j);
                }
            }
            assert forall|k: int| #![trigger self.answers@[k]]
                0 <= k < self.answers@.len() implies {
                &&& 0 <= self.answers@[k].call < self.asked
                &&& answers_with(
                    self.results@[k],
                    self.calls@[self.answers@[k].call],
                    self.answers@[k].fate,
                )
                &&& self.answers@[k].fate is Barred || self.asked == self.calls@.len()
            } by {
                if k < before.len() {
                    assert(self.answers@[k] == before[k]);
                }
            }
        }
    }

    /// What the first guard said of the call that was to be put to it next: that call is let
    /// through, or it is answered with the reason why it is not.
    pub fn guarded(&mut self, verdict: Result<(), String>)
        requires
            old(self).valid(),
            old(self).asked() < old(self).calls().len(),
        ensures
            final(self).valid(),
            final(self).calls() == old(self).calls(),
            final(self).asked() == old(self).asked() + 1,
            match verdict {
                Ok(_) => {
                    &&& final(self).answers() == old(self).answers()
                    &&& final(self).results() == old(self).results()
                },
                Err(reason) => {
                    let call = old(self).asked() as int;
                    &&& final(self).answers() == old(self).answers().push(
                        Answer { call, fate: Fate::Barred(reason@) },
                    )
                    &&& final(self).results().len() == old(self).results().len() + 1
                    &&& final(self).results().drop_last() == old(self).results()
                    &&& rejects(final(self).results().last(), old(self).calls()[call], reason@)
                },
            },
    {
        let i: usize = self.asked;
        proof {
            assert(self.asked < self.calls.len());
            if self.order().contains(i as int) {
                let k = self.order().index_of(i as int);
                assert(self.answers@[k].call == i);
            }
            assert forall|k: int| 0 <= k < self.answers@.len() implies #[trigger]
                self.answers@[k].fate is Barred by {}
        }
        self.asked = self.asked + 1;
        assert(self.order() =~= old(self).order());
        assert(self.valid());
        match verdict {
            Ok(_) => {},
            Err(reason) => {
                let id = self.calls[i].id.clone();
                let message = ChatMessage::Tool(ToolResult::rejected(id, reason.as_str()));
                self.answer(i, message, None, Ghost(Fate::Barred(reason@)));
                assert(self.results@.drop_last() =~= old(self).results@);
            },
        }
    }

    /// What call number `i` returned, and what the second guard said of that: the call is answered
    /// with the result, or with the reason why it is not let through.
    pub fn returned(
        &mut self,
        i: usize,
        result: Result<String, String>,
        verdict: Result<(), String>,
    )
        requires
            old(self).valid(),
            old(self).asked() == old(self).calls().len(),
            old(self).is_running(i as int),
        ensures
            final(self).valid(),
            final(self).calls() == old(self).calls(),
            final(self).asked() == old(self).asked(),
            final(self).answers() == old(self).answers().push(
                Answer {
                    call: i as int,
                    fate: match verdict {
                        Ok(_) => Fate::Made(result),
                        Err(reason) => Fate::Withheld(reason@),
                    },
                },
            ),
            final(self).results().len() == old(self).results().len() + 1,
            final(self).results().drop_last() == old(self).results(),
            match verdict {
                Ok(_) => completes(
                    final(self).results().last(),
                    old(self).calls()[i as int],
                    result,
                ),
                Err(reason) => rejects(
                    final(self).results().last(),
                    old(self).calls()[i as int],
                    reason@,
                ),
            },
    {
        let id = self.calls[i].id.clone();
        match verdict {
            Ok(_) => {
                let ghost fate = Fate::Made(result);
                let error = match &result {
                    Ok(_) => None,
                    Err(error) => Some(error.clone()),
                };
                let message = ChatMessage::Tool(ToolResult::new(id, result));
                self.answer(i, message, error, Ghost(fate));
            },
            Err(reason) => {
                let message = ChatMessage::Tool(ToolResult::rejected(id, reason.as_str()));
                self.answer(i, message, None, Ghost(Fate::Withheld(reason@)));
            },
        }
        assert(self.results@.drop_last() =~= old(self).results@);
    }
}

/// Once a round is over, there is one result for each call: as many results as calls, and each
/// call is answered by exactly one of them, which tells what became of it.
pub proof fn every_call_is_answered_once(round: CallRound)
    requires
        round.valid(),
        round.is_over(),
    ensures
        round.results().len() == round.calls().len(),
        round.answers().len() == round.calls().len(),
        forall|k: int| #![trigger round.answers()[k]]
            0 <= k < round.answers().len() ==> 0 <= round.answers()[k].call < round.calls().len()
                && answers_with(
                round.results()[k],
                round.calls()[round.answers()[k].call],
                round.answers()[k].fate,
            ),
        forall|i: int| 0 <= i < round.calls().len() ==> #[trigger] round.order().contains(i),
        forall|j: int, k: int|
            0 <= j < k < round.answers().len() ==> round.answers()[j].call
                != round.answers()[k].call,
{
    let order = round.order();
    let n = round.calls().len() as int;
    order.unique_seq_to_set();
    vstd::set_lib::lemma_int_range(0, n);
    assert(order.to_set() =~= vstd::set_lib::set_int_range(0, n)) by {
        assert forall|i: int| order.to_set().contains(i) implies 0 <= i < n by {
            let k = order.index_of(i);
            assert(round.answers()[k].call == i);
        }
    }
    assert forall|j: int, k: int| 0 <= j < k < round.answers().len() implies round.answers()[j].call
        != round.answers()[k].call by {
        assert(order[j] != order[k]);
    }
}

/// A call that the first guard rejected is neither made nor put to the second guard: it has no other
/// answer.
pub proof fn rejected_calls_are_not_made(round: CallRound, j: int, k: int)
    requires
        round.valid(),
        0 <= j < round.answers().len(),
        0 <= k < round.answers().len(),
        round.answers()[j].fate is Barred,
        !(round.answers()[k].fate is Barred),
    ensures
        round.answers()[j].call != round.answers()[k].call,
{
    assert(round.order()[j] != round.order()[k]);
}

/// No call is made before all have been put to the first guard.
pub proof fn guards_come_before_calls(round: CallRound, k: int)
    requires
        round.valid(),
        0 <= k < round.answers().len(),
        !(round.answers()[k].fate is Barred),
    ensures
        round.asked() == round.calls().len(),
{
}

/// Every answer goes to the call that it is for, by its ID. A call that was made is answered with its
/// result, or with a note that it failed and why; one that was not let through with a note that it was
/// rejected and why.
pub proof fn answers_tell_what_became_of_the_call(message: ChatMessage, call: ToolCall, fate: Fate)
    requires
        answers_with(message, call, fate),
    ensures
        message matches ChatMessage::Tool(answer) && answer.tool_call_id == Some(call.id) && match
            fate {
            Fate::Made(Ok(text)) => answer.content@ == text@,
            Fate::Made(Err(error)) => answer.content@ == "TOOL CALL FAILED: "@ + error@,
            Fate::Barred(reason) => answer.content@ == "TOOL CALL REJECTED: "@ + reason,
            Fate::Withheld(reason) => answer.content@ == "TOOL CALL REJECTED: "@ + reason,
        },
{
}

/// The failure of a round is that of the first answer that tells of a call that was made and failed;
/// there is none where no answer does.
pub proof fn the_first_failure_counts(answers: Seq<Answer>, i: int, error: String)
    requires
        0 <= i < answers.len(),
        forall|j: int|
            0 <= j < i ==> !((#[trigger] answers[j]).fate matches Fate::Made(result) && result is Err),
    ensures
        answers[i].fate == Fate::Made(Err(error)) ==> first_failure(answers) == Some(error@),
        i == answers.len() - 1 && !(answers[i].fate matches Fate::Made(result) && result is Err)
            ==> first_failure(answers) is None,
    decreases answers.len(),
{
    let fewer = answers.drop_last();
    assert forall|j: int| 0 <= j < i implies !((#[trigger] fewer[j]).fate matches Fate::Made(result)
        && result is Err) by {
        assert(fewer[j] == answers[j]);
    }
    if i < fewer.len() {
        assert(fewer[i] == answers[i]);
        the_first_failure_counts(fewer, i, error);
    } else if i > 0 {
        assert(fewer[i - 1] == answers[i - 1]);
        the_first_failure_counts(fewer, i - 1, error);
    }
}

/// Each call of a round is in one of three states: not yet put to the first guard, waiting for its
/// answer, or answered. The round is over when all are answered.
pub proof fn calls_wait_between_guard_and_answer(round: CallRound, i: int)
    requires
        round.valid(),
        0 <= i < round.calls().len(),
    ensures
        round.is_running(i) <==> i < round.asked() && !round.order().contains(i),
        round.is_over() ==> i < round.asked() && !round.is_running(i),
        round.order().contains(i) ==> i < round.asked() && !round.is_running(i),
{
    if round.order().contains(i) {
        let k = round.order().index_of(i);
        assert(round.answers()[k].call == i);
    }
}

/// A round is over as soon as all its calls were put to the first guard and none waits.
pub proof fn rounds_are_over_when_nothing_waits(round: CallRound)
    requires
        round.valid(),
        round.asked() == round.calls().len(),
        forall|j: int| 0 <= j < round.calls().len() ==> !#[trigger] round.is_running(j),
    ensures
        round.is_over(),
{
    assert forall|j: int| 0 <= j < round.calls().len() implies round.order().contains(j) by {
        assert(!round.is_running(j));
    }
}

/// In a round none of whose calls was put to the first guard none waits, and it is not over unless it
/// has no calls.
pub proof fn rounds_begin_with_the_first_guard(round: CallRound, i: int)
    requires
        round.asked() == 0,
    ensures
        !round.is_running(i),
        round.is_over() ==> round.calls().len() == 0,
{
}

} // verus!
