//! The decisions of the surrounding program's idle loop, kept apart from the
//! matching contract: the loop waits on either a periodic timer event or an
//! external cancellation signal, and only the cancellation stops it. The
//! caller performs the waiting and the printing; this module only decides.

use vstd::prelude::*;

verus! {

/// What the idle loop observed: a periodic timer tick, or a cancellation
/// signal from outside.
#[derive(Clone, Copy, Debug)]
pub enum IdleEvent {
    Tick,
    Interrupt,
}

/// What the idle loop does next: report that it is still waiting, or stop.
#[derive(Clone, Copy, Debug)]
pub enum IdleAction {
    KeepWaiting,
    Stop,
}

/// The idle loop keeps waiting exactly on a timer tick and stops exactly on
/// a cancellation signal.
pub fn idle_step(event: IdleEvent) -> (action: IdleAction)
    ensures
        action is KeepWaiting <==> event is Tick,
        action is Stop <==> event is Interrupt,
{
    match event {
        IdleEvent::Tick => IdleAction::KeepWaiting,
        IdleEvent::Interrupt => IdleAction::Stop,
    }
}

} // verus!
