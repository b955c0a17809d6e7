//! The shape of a whole run.

use vstd::prelude::*;

use crate::event_loop::command::Command;
use crate::event_loop::control_flow::ControlFlow;
use crate::event_loop::deliveries::{
    created_surfaces, delivered, delivery, law_what_a_turn_delivers, turn_deliveries,
};
use crate::event_loop::laws::{
    follows, history_step, law_history_is_consistent, lemma_exit_leads, lemma_step, History,
};
use crate::event_loop::model::LoopModel;
use crate::event_loop::queues::lists;
use crate::sctk_event::{IcedSctkEvent, StartCause, SurfaceUserRequest};
use crate::window::ObjectId;

verus! {

/// A round of a run: from the command that tells the application why the loop woke up to the
/// command that begins the next turn.
pub struct Round {
    /// The place of the first command.
    pub woken: int,
    /// The place of the command that begins the next turn.
    pub over: int,
    /// The order in which the requests are walked.
    pub order: Seq<(ObjectId, SurfaceUserRequest)>,
}

impl<T, E> History<T, E> {
    /// Whether this is a whole run that starts from `begun`.
    pub open spec fn is_run_of(self, begun: LoopModel<T, E>) -> bool {
        &&& self.is_valid()
        &&& self.models.first() == begun.start().0
        &&& self.commands.len() > 0
        &&& self.commands.last() is Finish
    }

    /// Whether this is one of the rounds, and a whole one.
    pub open spec fn has_round(self, round: Round) -> bool {
        &&& 0 <= round.woken < round.over < self.commands.len()
        &&& self.commands[round.woken] matches Command::Callback(IcedSctkEvent::NewEvents(cause))
        &&& !(cause is Init)
        &&& self.models[round.woken + 1].phase is NewEvents
        &&& self.commands[round.over] is Flush
        &&& forall|k: int|
            round.woken < k < round.over ==> !((#[trigger] self.commands[k]) is Flush)
        &&& lists(round.order, self.models[round.woken + 1].state.window_user_requests)
    }

    /// What the application is told in a round: why the loop woke up, and what is due in the
    /// turn.
    pub open spec fn told_in(self, round: Round) -> Seq<IcedSctkEvent<T, E>> {
        delivery(self.commands[round.woken]) + turn_deliveries(
            self.models[round.woken + 1].state,
            created_surfaces(self.replies.subrange(round.woken + 1, round.over + 1)),
            round.order,
        )
    }

    /// What the application is told in rounds.
    pub open spec fn told_in_all(self, rounds: Seq<Round>) -> Seq<IcedSctkEvent<T, E>>
        decreases rounds.len(),
    {
        if rounds.len() == 0 {
            seq![]
        } else {
            self.told_in(rounds.first()) + self.told_in_all(rounds.drop_first())
        }
    }

    /// Whether these are whole rounds, one after the other, none before `from`.
    pub open spec fn has_rounds(self, rounds: Seq<Round>, from: int) -> bool {
        &&& forall|r: int|
            0 <= r < rounds.len() ==> self.has_round(#[trigger] rounds[r]) && from
                <= rounds[r].woken
        &&& forall|r: int, s: int|
            #![trigger rounds[r], rounds[s]]
            0 <= r < s < rounds.len() ==> rounds[r].over < rounds[s].woken
    }
}

/// Commands one after the other tell the application about one after the other.
proof fn lemma_delivered_split<T, E>(first: Seq<Command<T, E>>, second: Seq<Command<T, E>>)
    ensures
        delivered(first + second) == delivered(first) + delivered(second),
    decreases first.len(),
{
    if first.len() == 0 {
        assert(first + second =~= second);
        assert(delivered(first) + delivered(second) =~= delivered(second));
    } else {
        assert((first + second).drop_first() =~= first.drop_first() + second);
        lemma_delivered_split(first.drop_first(), second);
        assert(delivered(first + second) =~= delivered(first) + delivered(second));
    }
}

/// A command that comes next tells the application about its event first.
proof fn lemma_delivered_next<T, E>(commands: Seq<Command<T, E>>, i: int)
    requires
        0 <= i < commands.len(),
    ensures
        delivered(commands.skip(i)) == delivery(commands[i]) + delivered(commands.skip(i + 1)),
{
    assert(commands.skip(i).drop_first() =~= commands.skip(i + 1));
}

/// A turn that has begun comes to an end before the run does.
proof fn lemma_turn_is_whole<T, E>(history: History<T, E>, i: int) -> (over: int)
    requires
        history.is_valid(),
        0 <= i < history.replies.len(),
        history.models[i].phase.is_awake(),
        history.commands.last() is Finish,
    ensures
        i <= over < history.commands.len(),
        history.commands[over] is Flush,
        forall|k: int| i <= k < over ==> !((#[trigger] history.commands[k]) is Flush),
    decreases history.replies.len() - i,
{
    let (_, order) = history_step(history, i);
    lemma_step(history.models[i], history.replies[i], order);
    if history.commands[i] is Flush {
        i
    } else {
        lemma_turn_is_whole(history, i + 1)
    }
}

/// What a round that begins with the command at `woken` tells the application.
proof fn lemma_round<T, E>(history: History<T, E>, woken: int) -> (round: Round)
    requires
        history.is_valid(),
        0 <= woken < history.replies.len() - 1,
        history.models[woken + 1].phase is NewEvents,
        history.commands.last() is Finish,
    ensures
        round.woken == woken,
        history.has_round(round),
        history.models[round.over + 1].phase is Flush,
        delivered(history.commands.skip(woken)) == history.told_in(round) + delivered(
            history.commands.skip(round.over + 1),
        ),
{
    let (_, walked) = history_step(history, woken);
    lemma_step(history.models[woken], history.replies[woken], walked);
    let from = woken + 1;
    let over = lemma_turn_is_whole(history, from);
    let (_, last_walked) = history_step(history, over);
    lemma_step(history.models[over], history.replies[over], last_walked);
    let turn = History {
        models: history.models.subrange(from, over + 2),
        replies: history.replies.subrange(from, over + 1),
        commands: history.commands.subrange(from, over + 1),
    };
    law_history_is_consistent(history, from);
    assert forall|i: int|
        #![trigger turn.replies[i]]
        0 <= i < turn.replies.len() implies turn.models[i].awaits(turn.replies[i])
        && follows(
        turn.models[i],
        turn.replies[i],
        turn.commands[i],
        turn.models[i + 1],
    ) by {
        assert(turn.replies[i] == history.replies[from + i]);
    }
    assert(turn.is_valid());
    law_what_a_turn_delivers(turn);
    let order = choose|order: Seq<(ObjectId, SurfaceUserRequest)>|
        {
            &&& lists(order, turn.models.first().state.window_user_requests)
            &&& delivered(turn.commands) == #[trigger] turn_deliveries(
                turn.models.first().state,
                created_surfaces(turn.replies),
                order,
            )
        };
    let round = Round { woken, over, order };
    lemma_delivered_next(history.commands, woken);
    assert(history.commands.skip(from) =~= turn.commands + history.commands.skip(over + 1));
    lemma_delivered_split(turn.commands, history.commands.skip(over + 1));
    assert(delivered(history.commands.skip(woken)) =~= history.told_in(round) + delivered(
        history.commands.skip(over + 1),
    ));
    round
}

/// What the application is told from a point between two rounds on.
proof fn lemma_rest_of_run<T, E>(history: History<T, E>, i: int) -> (rounds: Seq<Round>)
    requires
        history.is_valid(),
        0 <= i < history.replies.len(),
        history.models[i].phase.is_running(),
        !history.models[i].phase.is_awake(),
        history.commands.last() is Finish,
    ensures
        history.has_rounds(rounds, i),
        delivered(history.commands.skip(i)) == history.told_in_all(rounds)
            + seq![IcedSctkEvent::LoopDestroyed],
    decreases history.replies.len() - i,
{
    let (_, order) = history_step(history, i);
    lemma_step(history.models[i], history.replies[i], order);
    let next = history.models[i + 1];
    lemma_delivered_next(history.commands, i);
    if next.phase is LoopDestroyed {
        let rounds: Seq<Round> = seq![];
        history_step(history, i + 1);
        lemma_delivered_next(history.commands, i + 1);
        assert(i + 2 == history.commands.len()) by {
            if i + 2 < history.commands.len() {
                history_step(history, i + 2);
            }
        }
        assert(delivered(history.commands.skip(i + 2)) =~= seq![]);
        assert(delivered(history.commands.skip(i)) =~= history.told_in_all(rounds)
            + seq![IcedSctkEvent::LoopDestroyed]);
        rounds
    } else if next.phase is NewEvents {
        let round = lemma_round(history, i);
        let later = lemma_rest_of_run(history, round.over + 1);
        let rounds = seq![round] + later;
        assert(rounds.drop_first() =~= later);
        assert(history.has_rounds(rounds, i)) by {
            assert forall|r: int| 0 <= r < rounds.len() implies history.has_round(
                #[trigger] rounds[r],
            ) && i <= rounds[r].woken by {
                if r > 0 {
                    assert(rounds[r] == later[r - 1]);
                }
            }
            assert forall|r: int, s: int|
                #![trigger rounds[r], rounds[s]]
                0 <= r < s < rounds.len() implies rounds[r].over < rounds[s].woken by {
                assert(rounds[s] == later[s - 1]);
                if r > 0 {
                    assert(rounds[r] == later[r - 1]);
                }
            }
        }
        assert(delivered(history.commands.skip(i)) =~= history.told_in_all(rounds)
            + seq![IcedSctkEvent::LoopDestroyed]);
        rounds
    } else {
        let rounds = lemma_rest_of_run(history, i + 1);
        assert(delivery(history.commands[i]) =~= seq![]);
        assert(delivered(history.commands.skip(i)) =~= delivered(history.commands.skip(i + 1)));
        rounds
    }
}

/// A whole run tells the application that the loop starts, then goes through whole rounds, each
/// with everything that is due in it, and then tells the application that the loop is over,
/// once and as the last thing. Nothing else is told.
pub proof fn law_shape_of_a_run<T, E>(history: History<T, E>, begun: LoopModel<T, E>)
    requires
        history.is_run_of(begun),
    ensures
        begun.start().1 == Command::<T, E>::Callback(IcedSctkEvent::NewEvents(StartCause::Init)),
        exists|rounds: Seq<Round>|
            {
                &&& history.has_rounds(rounds, 0)
                &&& delivered(seq![begun.start().1] + history.commands) == seq![
                    IcedSctkEvent::NewEvents(StartCause::Init),
                ] + #[trigger] history.told_in_all(rounds) + seq![IcedSctkEvent::LoopDestroyed]
            },
        forall|k: int|
            0 <= k < history.models.len() ==> ((#[trigger] history.models[k]).phase is LoopDestroyed
                <==> k == history.models.len() - 2),
{
    let rounds = lemma_rest_of_run(history, 0);
    let first = seq![begun.start().1];
    assert(history.commands.skip(0) =~= history.commands);
    lemma_delivered_split(first, history.commands);
    assert(delivered(first.drop_first()) =~= seq![]);
    assert(delivered(first) =~= seq![IcedSctkEvent::NewEvents(StartCause::Init)]);
    assert(delivered(first + history.commands) =~= seq![
        IcedSctkEvent::NewEvents(StartCause::Init),
    ] + history.told_in_all(rounds) + seq![IcedSctkEvent::LoopDestroyed]);
    assert forall|k: int| 0 <= k < history.models.len() implies ((
    #[trigger] history.models[k]).phase is LoopDestroyed <==> k == history.models.len() - 2) by {
        lemma_destroyed_last(history, k);
    }
}

/// The application is told that the loop is over with the last command but one.
proof fn lemma_destroyed_last<T, E>(history: History<T, E>, k: int)
    requires
        history.is_valid(),
        0 <= k < history.models.len(),
        history.commands.len() > 0,
        history.commands.last() is Finish,
    ensures
        history.models[k].phase is LoopDestroyed <==> k == history.models.len() - 2,
{
    let last = history.replies.len() - 1;
    let (_, order) = history_step(history, last);
    lemma_step(history.models[last], history.replies[last], order);
    if k < last {
        history_step(history, k);
        history_step(history, k + 1);
    }
}

/// Once the application has decided on an exit no further round begins: the application is told
/// what is left of the round that is under way, and that the loop is over.
pub proof fn law_no_round_begins_after_an_exit<T, E>(history: History<T, E>, code: i32, i: int)
    requires
        history.is_valid(),
        0 <= i < history.models.len(),
        history.models[i].control_flow == ControlFlow::ExitWithCode(code),
        history.models[i].phase.is_running(),
    ensures
        forall|j: int|
            i <= j < history.models.len() ==> !((#[trigger] history.models[j]).phase is NewEvents),
        forall|round: Round| #[trigger] history.has_round(round) ==> round.woken + 1 < i,
{
    assert forall|j: int| i <= j < history.models.len() implies !((
    #[trigger] history.models[j]).phase is NewEvents) by {
        assert forall|k: int| i <= k < j - 1 implies !((#[trigger] history.commands[k]) is Finish) by {
            let (_, order) = history_step(history, k);
            lemma_step(history.models[k], history.replies[k], order);
            history_step(history, k + 1);
        }
        if j > i {
            lemma_exit_leads(history, code, i, j - 1);
            let (_, order) = history_step(history, j - 1);
            lemma_step(history.models[j - 1], history.replies[j - 1], order);
        } else {
            law_history_is_consistent(history, j);
        }
    }
}

} // verus!
