//! Keeping the computer awake while music plays.
use vstd::prelude::*;

verus! {

/// The services that can keep the desktop awake.
#[derive(Debug, Clone, Copy, PartialEq, Eq, Structural)]
pub enum InhibitService {
    DesktopPortal,
    ScreenSaver,
    GnomeSession,
}

/// What to do to follow a wish.
#[derive(Debug, Clone, Copy, PartialEq, Eq, Structural)]
pub enum InhibitAction {
    Nothing,
    /// Ask the service to keep the desktop awake.
    Acquire(InhibitService),
    /// Tell the service that this is not needed any more.
    Release(InhibitService),
}

/// By which service the desktop is kept awake, if it is.
#[derive(Debug, Clone, Copy, PartialEq, Eq, Structural)]
pub struct SleepInhibitor {
    pub session: Option<InhibitService>,
}

/// The service that is asked after `failed` refused: the portal comes first, then
/// the screen saver, then the session manager.
pub open spec fn service_after(failed: InhibitService) -> Option<InhibitService> {
    match failed {
        InhibitService::DesktopPortal => Some(InhibitService::ScreenSaver),
        InhibitService::ScreenSaver => Some(InhibitService::GnomeSession),
        InhibitService::GnomeSession => None,
    }
}

impl SleepInhibitor {
    /// Nothing is kept awake.
    pub fn new() -> (r: SleepInhibitor)
        ensures
            r == (SleepInhibitor { session: None }),
    {
        SleepInhibitor { session: None }
    }

    /// Follows a wish: a session that is there is kept, or given back; whether
    /// giving it back works does not matter for what is known afterwards.
    pub fn set_active(&mut self, active: bool) -> (r: InhibitAction)
        ensures
            match old(self).session {
                Some(service) => if active {
                    r == InhibitAction::Nothing && *final(self) == *old(self)
                } else {
                    r == InhibitAction::Release(service) && *final(self) == (SleepInhibitor {
                        session: None,
                    })
                },
                None => {
                    &&& *final(self) == *old(self)
                    &&& r == if active {
                        InhibitAction::Acquire(InhibitService::DesktopPortal)
                    } else {
                        InhibitAction::Nothing
                    }
                },
            },
    {
        match self.session {
            Some(service) => {
                if active {
                    InhibitAction::Nothing
                } else {
                    self.session = None;
                    InhibitAction::Release(service)
                }
            },
            None => {
                if active {
                    InhibitAction::Acquire(InhibitService::DesktopPortal)
                } else {
                    InhibitAction::Nothing
                }
            },
        }
    }

    /// A service agreed, or refused; a refusal may leave another to ask.
    pub fn answered(&mut self, service: InhibitService, agreed: bool) -> (r: InhibitAction)
        ensures
            agreed ==> r == InhibitAction::Nothing && final(self).session == Some(service),
            !agreed ==> *final(self) == *old(self) && r == match service_after(service) {
                Some(next) => InhibitAction::Acquire(next),
                None => InhibitAction::Nothing,
            },
    {
        if agreed {
            self.session = Some(service);
            return InhibitAction::Nothing;
        }
        match service {
            InhibitService::DesktopPortal => InhibitAction::Acquire(InhibitService::ScreenSaver),
            InhibitService::ScreenSaver => InhibitAction::Acquire(InhibitService::GnomeSession),
            InhibitService::GnomeSession => InhibitAction::Nothing,
        }
    }
}

/// The services are asked one after the other: the desktop portal, the screen saver and
/// the session, and then none.
pub proof fn law_services_are_asked_in_turn()
    ensures
        service_after(InhibitService::DesktopPortal) == Some(InhibitService::ScreenSaver),
        service_after(InhibitService::ScreenSaver) == Some(InhibitService::GnomeSession),
        service_after(InhibitService::GnomeSession) is None,
{
}

} // verus!
