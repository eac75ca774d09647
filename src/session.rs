//! The phases of a client session, as a state machine over the server's
//! replies.
//!
//! `Session::start` gives the first message. Each reply goes to `on_reply`,
//! which says what to do next: send a message, run the download walk, run
//! the upload, or stop. After a download the caller calls `downloaded`,
//! after an upload `uploaded`.
use vstd::prelude::*;
use crate::error::OrbitError;
use crate::objects::strs_view;
use crate::sync::{
    check_auth_reply, check_create_reply, check_final_reply, check_select_reply, check_want_reply,
    upload_set, without, SelectStep,
};
use crate::text::contains;
use crate::vnp::VnpCommand;

verus! {

/// What the session is for: a sync downloads and then uploads; a clone only
/// downloads, and stops at once when there is nothing to fetch.
#[derive(Debug, Clone, Copy, PartialEq, Eq, Structural)]
pub enum SessionMode {
    Sync,
    Clone,
}

/// Where a session stands.
#[derive(Debug, Clone, Copy, PartialEq, Eq, Structural)]
pub enum Phase {
    Authenticating,
    Selecting,
    Creating,
    Negotiating,
    Downloading,
    Uploading,
    Finalizing,
    Done,
    Failed(OrbitError),
}

/// What the caller does next.
#[derive(Debug, Clone)]
pub enum Step {
    /// Send the message and hand the reply to `on_reply`.
    Send(VnpCommand),
    /// Fetch these commits and all they reach, then call `downloaded`.
    Download(Vec<String>),
    /// Offer these commits with `Push`, serve the server's requests, then call
    /// `uploaded`.
    Upload(Vec<String>),
    /// The session is complete.
    Finish,
    /// The session failed.
    Fail(OrbitError),
}

pub struct Session {
    mode: SessionMode,
    phase: Phase,
    repository: Option<String>,
    local_tips: Vec<String>,
    want: Vec<String>,
}

/// Whether a step sends `Have` with these tips.
pub open spec fn sends_have(s: Step, tips: Seq<Seq<char>>) -> bool {
    s matches Step::Send(VnpCommand::Have(v)) && strs_view(v@) == tips
}

impl Session {
    /// A repository is named while one is being selected or created.
    pub closed spec fn wf(&self) -> bool {
        (self.phase == Phase::Selecting || self.phase == Phase::Creating) ==> self.repository is Some
    }

    pub closed spec fn phase(&self) -> Phase {
        self.phase
    }

    pub closed spec fn mode(&self) -> SessionMode {
        self.mode
    }

    pub closed spec fn tips(&self) -> Seq<Seq<char>> {
        strs_view(self.local_tips@)
    }

    pub closed spec fn repository(&self) -> Option<Seq<char>> {
        match self.repository {
            Some(r) => Some(r@),
            None => None,
        }
    }

    /// The commits the server said to fetch.
    pub closed spec fn wanted(&self) -> Seq<Seq<char>> {
        strs_view(self.want@)
    }

    /// A session that presents `token`, selects `repository` if one is
    /// named, and offers `local_tips`; with the message to send first.
    pub fn start(mode: SessionMode, token: String, repository: Option<String>, local_tips: Vec<String>) -> (r: (
        Session,
        VnpCommand,
    ))
        ensures
            r.0.wf(),
            r.0.phase() == Phase::Authenticating,
            r.0.mode() == mode,
            r.0.tips() == strs_view(local_tips@),
            r.0.repository() == (match repository {
                Some(x) => Some(x@),
                None => None::<Seq<char>>,
            }),
            r.0.wanted().len() == 0,
            r.1 matches VnpCommand::Authenticate(t) && t@ == token@,
    {
        let s = Session { mode, phase: Phase::Authenticating, repository, local_tips, want: Vec::new() };
        (s, VnpCommand::Authenticate(token))
    }

    fn have(&self) -> (r: Step)
        ensures
            sends_have(r, self.tips()),
    {
        let mut v: Vec<String> = Vec::new();
        let mut i: usize = 0;
        while i < self.local_tips.len()
            invariant
                i <= self.local_tips@.len(),
                strs_view(v@) == strs_view(self.local_tips@.subrange(0, i as int)),
            decreases self.local_tips@.len() - i,
        {
            v.push(self.local_tips[i].clone());
            assert(strs_view(self.local_tips@.subrange(0, i + 1)) =~= strs_view(
                self.local_tips@.subrange(0, i as int),
            ).push(self.local_tips@[i as int]@));
            i = i + 1;
        }
        assert(self.local_tips@.subrange(0, i as int) =~= self.local_tips@);
        Step::Send(VnpCommand::Have(v))
    }

    /// Takes the server's reply in a phase that awaits one.
    pub fn on_reply(&mut self, reply: &VnpCommand) -> (r: Step)
        requires
            old(self).wf(),
            old(self).phase() == Phase::Authenticating || old(self).phase() == Phase::Selecting
                || old(self).phase() == Phase::Creating || old(self).phase() == Phase::Negotiating
                || old(self).phase() == Phase::Finalizing,
        ensures
            final(self).wf(),
            final(self).mode() == old(self).mode(),
            final(self).tips() == old(self).tips(),
            final(self).repository() == old(self).repository(),
            r matches Step::Fail(e) ==> final(self).phase() == Phase::Failed(e),
            old(self).phase() == Phase::Authenticating ==> match *reply {
                VnpCommand::AuthResult { success, .. } => if !success {
                    r matches Step::Fail(e) && e == OrbitError::Auth
                } else if old(self).repository() is Some {
                    final(self).phase() == Phase::Selecting && (r matches Step::Send(
                        VnpCommand::SelectRepository(n),
                    ) && Some(n@) == old(self).repository())
                } else {
                    final(self).phase() == Phase::Negotiating && sends_have(r, old(self).tips())
                },
                VnpCommand::Error(_) => r matches Step::Fail(e) && e == OrbitError::Auth,
                _ => r matches Step::Fail(e) && e == OrbitError::Protocol,
            },
            old(self).phase() == Phase::Selecting ==> match *reply {
                VnpCommand::RepositorySelected(_) => final(self).phase() == Phase::Negotiating
                    && sends_have(r, old(self).tips()),
                VnpCommand::Error(msg) => if old(self).mode() == SessionMode::Clone && contains(
                    msg@,
                    "not found"@,
                ) {
                    final(self).phase() == Phase::Creating && (r matches Step::Send(
                        VnpCommand::CreateRepository(n),
                    ) && Some(n@) == old(self).repository())
                } else {
                    r matches Step::Fail(e) && e == OrbitError::Access
                },
                _ => r matches Step::Fail(e) && e == OrbitError::Protocol,
            },
            old(self).phase() == Phase::Creating ==> match *reply {
                VnpCommand::RepositorySelected(_) => final(self).phase() == Phase::Negotiating
                    && sends_have(r, old(self).tips()),
                VnpCommand::Error(_) => r matches Step::Fail(e) && e == OrbitError::Access,
                _ => r matches Step::Fail(e) && e == OrbitError::Protocol,
            },
            old(self).phase() == Phase::Negotiating ==> match *reply {
                VnpCommand::Want(w) => final(self).wanted() == strs_view(w@) && if w@.len() > 0 {
                    final(self).phase() == Phase::Downloading && (r matches Step::Download(d)
                        && strs_view(d@) == strs_view(w@))
                } else if old(self).mode() == SessionMode::Clone {
                    final(self).phase() == Phase::Done && r is Finish
                } else {
                    after_download(*final(self), r)
                },
                VnpCommand::Error(_) => r matches Step::Fail(e) && e == OrbitError::Access,
                _ => r matches Step::Fail(e) && e == OrbitError::Protocol,
            },
            old(self).phase() == Phase::Finalizing ==> match *reply {
                VnpCommand::Ack => final(self).phase() == Phase::Done && r is Finish,
                VnpCommand::Error(_) => r matches Step::Fail(e) && e == OrbitError::Access,
                _ => r matches Step::Fail(e) && e == OrbitError::Protocol,
            },
    {
        let step = match self.phase {
            Phase::Authenticating => match check_auth_reply(reply) {
                Err(e) => Step::Fail(e),
                Ok(()) => match &self.repository {
                    Some(n) => {
                        self.phase = Phase::Selecting;
                        Step::Send(VnpCommand::SelectRepository(n.clone()))
                    },
                    None => {
                        self.phase = Phase::Negotiating;
                        self.have()
                    },
                },
            },
            Phase::Selecting => {
                let may_create = self.mode == SessionMode::Clone;
                match check_select_reply(reply, may_create) {
                    SelectStep::Selected(_) => {
                        self.phase = Phase::Negotiating;
                        self.have()
                    },
                    SelectStep::Create => match &self.repository {
                        Some(n) => {
                            self.phase = Phase::Creating;
                            Step::Send(VnpCommand::CreateRepository(n.clone()))
                        },
                        None => Step::Fail(OrbitError::Protocol),
                    },
                    SelectStep::Fail(e) => Step::Fail(e),
                }
            },
            Phase::Creating => match check_create_reply(reply) {
                Ok(_) => {
                    self.phase = Phase::Negotiating;
                    self.have()
                },
                Err(e) => Step::Fail(e),
            },
            Phase::Negotiating => match check_want_reply(reply) {
                Err(e) => Step::Fail(e),
                Ok(w) => {
                    let d = clone_all(&w);
                    let n = w.len();
                    proof {
                        if let VnpCommand::Want(rw) = reply {
                            assert(strs_view(rw@).len() == rw@.len());
                            assert(strs_view(w@).len() == w@.len());
                        }
                    }
                    self.want = w;
                    if n > 0 {
                        self.phase = Phase::Downloading;
                        Step::Download(d)
                    } else if self.mode == SessionMode::Clone {
                        self.phase = Phase::Done;
                        Step::Finish
                    } else {
                        self.next_after_download()
                    }
                },
            },
            _ => match check_final_reply(reply) {
                Ok(()) => {
                    self.phase = Phase::Done;
                    Step::Finish
                },
                Err(e) => Step::Fail(e),
            },
        };
        if let Step::Fail(e) = step {
            self.phase = Phase::Failed(e);
        }
        step
    }

    fn next_after_download(&mut self) -> (r: Step)
        ensures
            final(self).mode() == old(self).mode(),
            final(self).tips() == old(self).tips(),
            final(self).repository() == old(self).repository(),
            final(self).wanted() == old(self).wanted(),
            final(self).wf(),
            after_download(*final(self), r),
    {
        if self.mode == SessionMode::Sync && self.local_tips.len() > 0 {
            let u = upload_set(&self.local_tips, &self.want);
            if u.len() > 0 {
                self.phase = Phase::Uploading;
                return Step::Upload(u);
            }
        }
        self.phase = Phase::Finalizing;
        Step::Send(VnpCommand::Ready)
    }

    /// Reports that the download walk is complete.
    pub fn downloaded(&mut self) -> (r: Step)
        requires
            old(self).wf(),
            old(self).phase() == Phase::Downloading,
        ensures
            final(self).mode() == old(self).mode(),
            final(self).tips() == old(self).tips(),
            final(self).repository() == old(self).repository(),
            final(self).wanted() == old(self).wanted(),
            final(self).wf(),
            old(self).mode() == SessionMode::Clone ==> final(self).phase() == Phase::Finalizing
                && r matches Step::Send(VnpCommand::Ready),
            old(self).mode() == SessionMode::Sync ==> after_download(*final(self), r),
    {
        if self.mode == SessionMode::Clone {
            self.phase = Phase::Finalizing;
            return Step::Send(VnpCommand::Ready);
        }
        self.next_after_download()
    }

    /// Reports that the server has all the objects it asked for.
    pub fn uploaded(&mut self) -> (r: Step)
        requires
            old(self).wf(),
            old(self).phase() == Phase::Uploading,
        ensures
            final(self).mode() == old(self).mode(),
            final(self).tips() == old(self).tips(),
            final(self).repository() == old(self).repository(),
            final(self).wanted() == old(self).wanted(),
            final(self).wf(),
            final(self).phase() == Phase::Finalizing,
            r matches Step::Send(VnpCommand::Ready),
    {
        self.phase = Phase::Finalizing;
        Step::Send(VnpCommand::Ready)
    }

    /// Where the session stands.
    pub fn current_phase(&self) -> (r: Phase)
        ensures
            r == self.phase(),
    {
        self.phase
    }

    /// The commits the server said to fetch, in its order.
    pub fn want(&self) -> (r: &Vec<String>)
        ensures
            strs_view(r@) == self.wanted(),
    {
        &self.want
    }
}

/// After the download, a sync with local tips that the server did not name
/// uploads them; otherwise the session sends `Ready`.
pub open spec fn after_download(s: Session, r: Step) -> bool {
    let u = without(s.tips(), s.wanted());
    if s.mode() == SessionMode::Sync && s.tips().len() > 0 && u.len() > 0 {
        s.phase() == Phase::Uploading && (r matches Step::Upload(v) && strs_view(v@) == u)
    } else {
        s.phase() == Phase::Finalizing && r matches Step::Send(VnpCommand::Ready)
    }
}

fn clone_all(v: &Vec<String>) -> (r: Vec<String>)
    ensures
        strs_view(r@) == strs_view(v@),
{
    let mut r: Vec<String> = Vec::new();
    let mut i: usize = 0;
    while i < v.len()
        invariant
            i <= v@.len(),
            strs_view(r@) == strs_view(v@.subrange(0, i as int)),
        decreases v@.len() - i,
    {
        r.push(v[i].clone());
        assert(strs_view(v@.subrange(0, i + 1)) =~= strs_view(v@.subrange(0, i as int)).push(
            v@[i as int]@,
        ));
        i = i + 1;
    }
    assert(v@.subrange(0, i as int) =~= v@);
    r
}

} // verus!
