//! One session with an agent, as a conversation: what arrives, and what the
//! viewer does about it.

use crate::text::{decimal, push_decimal};
use vstd::prelude::*;

verus! {

/// One of the host's monitors.
#[derive(Debug, Clone, Copy, PartialEq, Eq, Structural)]
pub struct Monitor {
    pub id: u8,
    pub width: u16,
    pub height: u16,
    pub x: i32,
    pub y: i32,
    pub primary: bool,
}

/// What an agent asks of a viewer before it lets it in.
#[derive(Debug, Clone, Copy, PartialEq, Eq, Structural)]
pub struct Required {
    /// A grant from the agent's server is accepted.
    pub takes_grants: bool,
    /// There is a password.
    pub has_secret: bool,
    /// The password is asked for on top of a grant.
    pub password_after_grant: bool,
    /// The password alone lets a viewer in.
    pub password_is_enough: bool,
}

/// A message from the agent, as far as the opening of a session goes by it.
#[derive(Debug)]
pub enum Reply {
    /// `codecs` is the agent's list in words, `h264` whether H.264 is in it.
    Hello { version: u32, h264: bool, codecs: String },
    AuthRequired(Required),
    /// The agent's half of the password exchange.
    AuthAnswer,
    /// The agent's proof that it knows the password.
    AuthProved,
    AwaitingApproval,
    MonitorList(Vec<Monitor>),
    /// Any other message, or the end of the stream.
    Other,
}

/// How far the opening of a session has come.
#[derive(Debug, Clone, Copy, PartialEq, Eq, Structural)]
pub enum Stage {
    /// Waiting for the agent's hello.
    Greeting,
    /// Greeted: the agent may ask for credentials.
    Greeted,
    /// The password exchange has begun.
    Proving,
    /// This side's proof is out, the agent's has not come.
    Proved,
    /// Credentials are settled: the person at the device may have to agree.
    Cleared,
    /// Waiting for that person.
    Approving,
    /// The picture is coming.
    Watching,
    /// Nothing more comes of this.
    Closed,
}

/// What the viewer waited for when something else came.
#[derive(Debug, Clone, Copy, PartialEq, Eq, Structural)]
pub enum Wanted {
    Hello,
    AgentsHalf,
    AgentsProof,
    MonitorList,
}

impl Wanted {
    pub open spec fn says(&self) -> Seq<char> {
        match self {
            Wanted::Hello => "expected Hello"@,
            Wanted::AgentsHalf => "expected the agent's half of the password exchange"@,
            Wanted::AgentsProof => "expected the agent's proof"@,
            Wanted::MonitorList => "expected MonitorList"@,
        }
    }

    pub fn message(&self) -> (text: &'static str)
        ensures
            text@ == self.says(),
    {
        match self {
            Wanted::Hello => "expected Hello",
            Wanted::AgentsHalf => "expected the agent's half of the password exchange",
            Wanted::AgentsProof => "expected the agent's proof",
            Wanted::MonitorList => "expected MonitorList",
        }
    }
}

/// What the viewer does next.
#[derive(Debug)]
pub enum Step {
    /// Read on.
    Wait,
    /// Send the grant and read on.
    Present,
    /// Send the grant, then begin the password exchange.
    PresentAndProve,
    /// Begin the password exchange.
    Prove,
    /// Answer the agent's half with this side's proof.
    SendProof,
    /// Check the agent's proof, and read on if it holds.
    CheckProof,
    /// Tell the user that someone at the device has to agree, and read on.
    Announce,
    /// In: ask for the picture of this size.
    Watch { width: u32, height: u32 },
    /// Trying again will not help: say this and stop.
    Refuse(String),
    /// Not what was waited for.
    Unexpected(Wanted),
}

/// Where in `monitors` the one called `id` first stands, from `from` on; the
/// length of the list where it does not.
pub open spec fn place_of(monitors: Seq<Monitor>, id: u8, from: int) -> int
    decreases monitors.len() - from,
{
    if from >= monitors.len() {
        monitors.len() as int
    } else if monitors[from].id == id {
        from
    } else {
        place_of(monitors, id, from + 1)
    }
}

fn find_monitor(monitors: &[Monitor], id: u8) -> (at: usize)
    ensures
        at == place_of(monitors@, id, 0),
        at <= monitors@.len(),
        at < monitors@.len() ==> monitors@[at as int].id == id,
        at == monitors@.len() ==> forall|i: int|
            0 <= i < monitors@.len() ==> (#[trigger] monitors@[i]).id != id,
{
    let mut i: usize = 0;
    while i < monitors.len() && monitors[i].id != id
        invariant
            i <= monitors@.len(),
            place_of(monitors@, id, 0) == place_of(monitors@, id, i as int),
            forall|j: int| 0 <= j < i ==> (#[trigger] monitors@[j]).id != id,
        decreases monitors.len() - i,
    {
        i = i + 1;
    }
    i
}

/// Whether the host has a monitor called `id`.
pub open spec fn has_monitor(monitors: Seq<Monitor>, id: u8) -> bool {
    exists|i: int| 0 <= i < monitors.len() && (#[trigger] monitors[i]).id == id
}

/// Whether a request to watch monitor `id` can be met.
pub fn known_monitor(monitors: &[Monitor], id: u8) -> (known: bool)
    ensures
        known == has_monitor(monitors@, id),
{
    find_monitor(monitors, id) < monitors.len()
}

/// The monitor after `watching` in id order, wrapping round; `None` when
/// there is nowhere else to go.
pub fn next_monitor(monitors: &[Monitor], watching: u8) -> (next: Option<u8>)
    ensures
        match next {
            Some(id) => {
                &&& has_monitor(monitors@, id)
                &&& id != watching
                &&& id > watching ==> forall|other: u8| #[trigger]
                    has_monitor(monitors@, other) && other > watching ==> id <= other
                &&& id < watching ==> forall|other: u8| #[trigger]
                    has_monitor(monitors@, other) ==> id <= other <= watching
            },
            None => forall|id: u8| #[trigger] has_monitor(monitors@, id) ==> id == watching,
        },
{
    let mut above: Option<u8> = None;
    let mut least: Option<u8> = None;
    let mut i: usize = 0;
    while i < monitors.len()
        invariant
            i <= monitors@.len(),
            match above {
                Some(id) => has_monitor(monitors@, id) && id > watching && forall|j: int|
                    0 <= j < i && (#[trigger] monitors@[j]).id > watching ==> id
                        <= monitors@[j].id,
                None => forall|j: int| 0 <= j < i ==> (#[trigger] monitors@[j]).id <= watching,
            },
            match least {
                Some(id) => has_monitor(monitors@, id) && forall|j: int|
                    0 <= j < i ==> id <= (#[trigger] monitors@[j]).id,
                None => i == 0,
            },
        decreases monitors.len() - i,
    {
        let id: u8 = monitors[i].id;
        assert(has_monitor(monitors@, id)) by {
            assert(monitors@[i as int].id == id);
        }
        if id > watching {
            above = match above {
                Some(best) => if id < best {
                    Some(id)
                } else {
                    Some(best)
                },
                None => Some(id),
            };
        }
        least = match least {
            Some(best) => if id < best {
                Some(id)
            } else {
                Some(best)
            },
            None => Some(id),
        };
        i = i + 1;
    }
    match above {
        Some(id) => Some(id),
        None => match least {
            Some(id) => if id != watching {
                Some(id)
            } else {
                assert forall|other: u8| #[trigger] has_monitor(
                    monitors@,
                    other,
                ) implies other == watching by {
                    let j = choose|j: int|
                        0 <= j < monitors@.len() && (#[trigger] monitors@[j]).id == other;
                }
                None
            },
            None => None,
        },
    }
}

pub open spec fn speaks_otherwise(theirs: u32, ours: u32) -> Seq<char> {
    "the agent speaks protocol "@ + decimal(theirs as nat) + ", this viewer "@ + decimal(
        ours as nat,
    )
}

pub open spec fn no_monitor(id: u8, count: nat) -> Seq<char> {
    "the agent has no monitor "@ + decimal(id as nat) + "; it has "@ + decimal(count)
}

pub open spec fn no_encoder(codecs: Seq<char>) -> Seq<char> {
    "the agent offers no H.264 encoder ("@ + codecs + ")"@
}

pub open spec fn needs_grant(has_secret: bool) -> Seq<char> {
    "this device needs a grant from its server"@ + (if has_secret {
        " as well as its password"@
    } else {
        Seq::<char>::empty()
    }) + "; sign in to it first"@
}

/// The opening of a session, up to the picture.
#[derive(Debug)]
pub struct Opening {
    stage: Stage,
    version: u32,
    monitor: u8,
    granted: bool,
    h264: bool,
    codecs: String,
    reached: bool,
}

/// What a reply does to the opening, but for the words of a refusal.
pub open spec fn next_stage(
    stage: Stage,
    version: u32,
    monitor: u8,
    granted: bool,
    h264: bool,
    reply: Reply,
) -> Stage {
    match (stage, reply) {
        (Stage::Greeting, Reply::Hello { version: theirs, .. }) => if theirs == version {
            Stage::Greeted
        } else {
            Stage::Closed
        },
        (Stage::Greeted, Reply::AuthRequired(required)) => if granted {
            if !required.takes_grants {
                Stage::Closed
            } else if required.has_secret && required.password_after_grant {
                Stage::Proving
            } else {
                Stage::Cleared
            }
        } else if required.has_secret && required.password_is_enough {
            Stage::Proving
        } else {
            Stage::Closed
        },
        (Stage::Proving, Reply::AuthAnswer) => Stage::Proved,
        (Stage::Proved, Reply::AuthProved) => Stage::Cleared,
        (Stage::Greeted, Reply::AwaitingApproval) => Stage::Approving,
        (Stage::Cleared, Reply::AwaitingApproval) => Stage::Approving,
        (Stage::Greeted, Reply::MonitorList(monitors))
        | (Stage::Cleared, Reply::MonitorList(monitors))
        | (Stage::Approving, Reply::MonitorList(monitors)) => if has_monitor(monitors@, monitor)
            && h264 {
            Stage::Watching
        } else {
            Stage::Closed
        },
        _ => Stage::Closed,
    }
}

impl Opening {
    pub closed spec fn stage(&self) -> Stage {
        self.stage
    }

    pub closed spec fn version(&self) -> u32 {
        self.version
    }

    pub closed spec fn monitor(&self) -> u8 {
        self.monitor
    }

    pub closed spec fn granted(&self) -> bool {
        self.granted
    }

    /// Whether the agent's hello named H.264.
    pub closed spec fn h264(&self) -> bool {
        self.h264
    }

    pub closed spec fn codecs(&self) -> Seq<char> {
        self.codecs@
    }

    /// The session got as far as the picture.
    pub closed spec fn reached(&self) -> bool {
        self.reached
    }

    /// This viewer's hello, for monitor `monitor`, is on its way; `granted`
    /// says whether it holds a grant.
    pub fn new(version: u32, monitor: u8, granted: bool) -> (opening: Opening)
        ensures
            opening.stage() == Stage::Greeting,
            opening.version() == version,
            opening.monitor() == monitor,
            opening.granted() == granted,
            !opening.reached(),
    {
        Opening {
            stage: Stage::Greeting,
            version,
            monitor,
            granted,
            h264: false,
            codecs: String::new(),
            reached: false,
        }
    }

    /// Whether a loss from here on is worth coming back from.
    pub fn has_reached(&self) -> (reached: bool)
        ensures
            reached == self.reached(),
    {
        self.reached
    }

    /// What `next` does.
    pub open spec fn hears(
        before: &Opening,
        after: &Opening,
        reply: Reply,
        step: Step,
    ) -> bool {
        &&& after.version() == before.version()
        &&& after.monitor() == before.monitor()
        &&& after.granted() == before.granted()
        &&& after.stage() == next_stage(
            before.stage(),
            before.version(),
            before.monitor(),
            before.granted(),
            before.h264(),
            reply,
        )
        &&& match (before.stage(), reply) {
            (Stage::Greeting, Reply::Hello { version, h264, codecs }) => {
                &&& after.h264() == h264
                &&& after.codecs() == codecs@
            },
            _ => {
                &&& after.h264() == before.h264()
                &&& after.codecs() == before.codecs()
            },
        }
        &&& after.reached() == (before.reached() || (reply matches Reply::MonitorList(
            monitors,
        ) && has_monitor(monitors@, before.monitor()) && (before.stage()
            == Stage::Greeted || before.stage() == Stage::Cleared || before.stage()
            == Stage::Approving)))
        &&& match (before.stage(), reply) {
            (Stage::Greeting, Reply::Hello { version, .. }) => if version
                == before.version() {
                step is Wait
            } else {
                step matches Step::Refuse(text) && text@ == speaks_otherwise(
                    version,
                    before.version(),
                )
            },
            (Stage::Greeting, _) => step == Step::Unexpected(Wanted::Hello),
            (Stage::Greeted, Reply::AuthRequired(required)) => if before.granted() {
                if !required.takes_grants {
                    step matches Step::Refuse(text) && text@
                        == "this device takes a password, not a grant from a server"@
                } else if required.has_secret && required.password_after_grant {
                    step is PresentAndProve
                } else {
                    step is Present
                }
            } else if required.has_secret && required.password_is_enough {
                step is Prove
            } else {
                step matches Step::Refuse(text) && text@ == needs_grant(required.has_secret)
            },
            (Stage::Proving, Reply::AuthAnswer) => step is SendProof,
            (Stage::Proving, _) => step == Step::Unexpected(Wanted::AgentsHalf),
            (Stage::Proved, Reply::AuthProved) => step is CheckProof,
            (Stage::Proved, _) => step == Step::Unexpected(Wanted::AgentsProof),
            (Stage::Greeted, Reply::AwaitingApproval) => step is Announce,
            (Stage::Cleared, Reply::AwaitingApproval) => step is Announce,
            (Stage::Greeted, Reply::MonitorList(monitors))
            | (Stage::Cleared, Reply::MonitorList(monitors))
            | (Stage::Approving, Reply::MonitorList(monitors)) => if !has_monitor(
                monitors@,
                before.monitor(),
            ) {
                step matches Step::Refuse(text) && text@ == no_monitor(
                    before.monitor(),
                    monitors@.len(),
                )
            } else if !before.h264() {
                step matches Step::Refuse(text) && text@ == no_encoder(before.codecs())
            } else {
                let shown = monitors@[place_of(monitors@, before.monitor(), 0)];
                step == Step::Watch { width: shown.width as u32, height: shown.height as u32 }
            },
            _ => step == Step::Unexpected(Wanted::MonitorList),
        }
    }

    /// Take the agent's next message.
    pub fn next(&mut self, reply: Reply) -> (step: Step)
        ensures
            Opening::hears(
                old(self),
                final(self),
                reply,
                step,
            ),
    {
        match (self.stage, reply) {
            (Stage::Greeting, Reply::Hello { version, h264, codecs }) => {
                self.h264 = h264;
                self.codecs = codecs;
                if version == self.version {
                    self.stage = Stage::Greeted;
                    Step::Wait
                } else {
                    self.stage = Stage::Closed;
                    let mut text = "the agent speaks protocol ".to_owned();
                    push_decimal(&mut text, version as u64);
                    text.append(", this viewer ");
                    push_decimal(&mut text, self.version as u64);
                    Step::Refuse(text)
                }
            },
            (Stage::Greeting, _) => {
                self.stage = Stage::Closed;
                Step::Unexpected(Wanted::Hello)
            },
            (Stage::Greeted, Reply::AuthRequired(required)) => self.authorise(required),
            (Stage::Proving, Reply::AuthAnswer) => {
                self.stage = Stage::Proved;
                Step::SendProof
            },
            (Stage::Proving, _) => {
                self.stage = Stage::Closed;
                Step::Unexpected(Wanted::AgentsHalf)
            },
            (Stage::Proved, Reply::AuthProved) => {
                self.stage = Stage::Cleared;
                Step::CheckProof
            },
            (Stage::Proved, _) => {
                self.stage = Stage::Closed;
                Step::Unexpected(Wanted::AgentsProof)
            },
            (Stage::Greeted, Reply::AwaitingApproval)
            | (Stage::Cleared, Reply::AwaitingApproval) => {
                self.stage = Stage::Approving;
                Step::Announce
            },
            (Stage::Greeted, Reply::MonitorList(monitors))
            | (Stage::Cleared, Reply::MonitorList(monitors))
            | (Stage::Approving, Reply::MonitorList(monitors)) => self.watch(&monitors),
            _ => {
                self.stage = Stage::Closed;
                Step::Unexpected(Wanted::MonitorList)
            },
        }
    }

    fn authorise(&mut self, required: Required) -> (step: Step)
        requires
            old(self).stage() == Stage::Greeted,
        ensures
            final(self).version() == old(self).version(),
            final(self).monitor() == old(self).monitor(),
            final(self).granted() == old(self).granted(),
            final(self).h264() == old(self).h264(),
            final(self).codecs() == old(self).codecs(),
            final(self).reached() == old(self).reached(),
            final(self).stage() == next_stage(
                old(self).stage(),
                old(self).version(),
                old(self).monitor(),
                old(self).granted(),
                old(self).h264(),
                Reply::AuthRequired(required),
            ),
            if old(self).granted() {
                if !required.takes_grants {
                    step matches Step::Refuse(text) && text@
                        == "this device takes a password, not a grant from a server"@
                } else if required.has_secret && required.password_after_grant {
                    step is PresentAndProve
                } else {
                    step is Present
                }
            } else if required.has_secret && required.password_is_enough {
                step is Prove
            } else {
                step matches Step::Refuse(text) && text@ == needs_grant(required.has_secret)
            },
    {
        if self.granted {
            if !required.takes_grants {
                self.stage = Stage::Closed;
                return Step::Refuse(
                    "this device takes a password, not a grant from a server".to_owned(),
                );
            }
            if required.has_secret && required.password_after_grant {
                self.stage = Stage::Proving;
                Step::PresentAndProve
            } else {
                self.stage = Stage::Cleared;
                Step::Present
            }
        } else if required.has_secret && required.password_is_enough {
            self.stage = Stage::Proving;
            Step::Prove
        } else {
            self.stage = Stage::Closed;
            let mut text = "this device needs a grant from its server".to_owned();
            if required.has_secret {
                text.append(" as well as its password");
            }
            text.append("; sign in to it first");
            assert(text@ =~= needs_grant(required.has_secret));
            Step::Refuse(text)
        }
    }

    fn watch(&mut self, monitors: &Vec<Monitor>) -> (step: Step)
        requires
            old(self).stage() == Stage::Greeted || old(self).stage() == Stage::Cleared || old(
                self,
            ).stage() == Stage::Approving,
        ensures
            final(self).version() == old(self).version(),
            final(self).monitor() == old(self).monitor(),
            final(self).granted() == old(self).granted(),
            final(self).h264() == old(self).h264(),
            final(self).codecs() == old(self).codecs(),
            final(self).reached() == (old(self).reached() || has_monitor(
                monitors@,
                old(self).monitor(),
            )),
            final(self).stage() == (if has_monitor(monitors@, old(self).monitor()) && old(
                self,
            ).h264() {
                Stage::Watching
            } else {
                Stage::Closed
            }),
            if !has_monitor(monitors@, old(self).monitor()) {
                step matches Step::Refuse(text) && text@ == no_monitor(
                    old(self).monitor(),
                    monitors@.len(),
                )
            } else if !old(self).h264() {
                step matches Step::Refuse(text) && text@ == no_encoder(old(self).codecs())
            } else {
                let shown = monitors@[place_of(monitors@, old(self).monitor(), 0)];
                step == Step::Watch { width: shown.width as u32, height: shown.height as u32 }
            },
    {
        let at = find_monitor(monitors, self.monitor);
        if at == monitors.len() {
            self.stage = Stage::Closed;
            let mut text = "the agent has no monitor ".to_owned();
            push_decimal(&mut text, self.monitor as u64);
            text.append("; it has ");
            push_decimal(&mut text, monitors.len() as u64);
            return Step::Refuse(text);
        }
        // In: a loss from here on is worth coming back from.
        self.reached = true;
        if !self.h264 {
            self.stage = Stage::Closed;
            let mut text = "the agent offers no H.264 encoder (".to_owned();
            text.append(&self.codecs);
            text.append(")");
            return Step::Refuse(text);
        }
        self.stage = Stage::Watching;
        Step::Watch { width: monitors[at].width as u32, height: monitors[at].height as u32 }
    }
}

/// An agent that asked for credentials shows nothing to a viewer that gave
/// none: from its question on, the picture comes only behind a grant it
/// takes, or a password exchange that both sides ended.
pub proof fn lemma_no_picture_without_credentials(
    version: u32,
    monitor: u8,
    granted: bool,
    h264: bool,
    required: Required,
    reply: Reply,
)
    requires
        !(granted && required.takes_grants),
    ensures
        ({
            let asked = next_stage(
                Stage::Greeted,
                version,
                monitor,
                granted,
                h264,
                Reply::AuthRequired(required),
            );
            &&& asked == Stage::Closed || asked == Stage::Proving
            &&& next_stage(asked, version, monitor, granted, h264, reply) == Stage::Closed
                || reply is AuthAnswer && asked == Stage::Proving
            &&& next_stage(Stage::Proved, version, monitor, granted, h264, reply)
                == Stage::Cleared <==> reply is AuthProved
        }),
{
}

/// Once closed, closed: no message reopens a session.
pub proof fn lemma_closed_stays_closed(
    version: u32,
    monitor: u8,
    granted: bool,
    h264: bool,
    reply: Reply,
)
    ensures
        next_stage(Stage::Closed, version, monitor, granted, h264, reply) == Stage::Closed,
{
}

/// The picture comes only where the agent speaks the same protocol, has the
/// monitor that is wanted and encodes H.264, once there is nothing left to
/// settle; and it is asked for in that monitor's size.
pub proof fn lemma_the_picture_is_the_monitors(
    before: Opening,
    after: Opening,
    reply: Reply,
    step: Step,
)
    requires
        Opening::hears(&before, &after, reply, step),
    ensures
        step is Watch <==> after.stage() == Stage::Watching,
        step matches Step::Watch { width, height } ==> {
            &&& before.h264()
            &&& before.stage() == Stage::Greeted || before.stage() == Stage::Cleared
                || before.stage() == Stage::Approving
            &&& reply matches Reply::MonitorList(monitors) && exists|i: int|
                0 <= i < monitors@.len() && (#[trigger] monitors@[i]).id == before.monitor()
                    && monitors@[i].width == width && monitors@[i].height == height
        },
        (before.stage() == Stage::Greeted || before.stage() == Stage::Cleared || before.stage()
            == Stage::Approving) && before.h264() ==> (reply matches Reply::MonitorList(monitors)
            ==> (has_monitor(monitors@, before.monitor()) ==> step is Watch)),
        before.stage() == Stage::Greeting ==> (after.stage() == Stage::Greeted <==> (
        reply matches Reply::Hello { version, .. } && version == before.version())),
        step is Watch ==> after.reached(),
{
    if let Reply::MonitorList(monitors) = reply {
        lemma_place_of(monitors@, before.monitor(), 0);
        if step is Watch {
            let i = place_of(monitors@, before.monitor(), 0);
            assert(monitors@[i].id == before.monitor());
        }
    }
}

proof fn lemma_place_of(monitors: Seq<Monitor>, id: u8, from: int)
    requires
        0 <= from,
    ensures
        ({
            let i = place_of(monitors, id, from);
            &&& i < monitors.len() ==> from <= i && monitors[i].id == id
            &&& i >= monitors.len() ==> forall|k: int|
                from <= k < monitors.len() ==> (#[trigger] monitors[k]).id != id
        }),
    decreases monitors.len() - from,
{
    if from < monitors.len() && monitors[from].id != id {
        lemma_place_of(monitors, id, from + 1);
    }
}

/// A grant is presented where there is one and grants are taken, with the
/// password behind it where that is asked for too; a password alone is given
/// where it is enough; and the proof goes out only for the agent's half, and is
/// checked only against the agent's.
pub proof fn lemma_credentials_are_given_where_they_are_asked_for(
    before: Opening,
    after: Opening,
    reply: Reply,
    step: Step,
)
    requires
        Opening::hears(&before, &after, reply, step),
    ensures
        step is Present || step is PresentAndProve || step is Prove ==> before.stage()
            == Stage::Greeted && reply is AuthRequired,
        before.stage() == Stage::Greeted ==> (reply matches Reply::AuthRequired(asked) ==> {
            &&& step is Present <==> before.granted() && asked.takes_grants && !(asked.has_secret
                && asked.password_after_grant)
            &&& step is PresentAndProve <==> before.granted() && asked.takes_grants
                && asked.has_secret && asked.password_after_grant
            &&& step is Prove <==> !before.granted() && asked.has_secret && asked.password_is_enough
            &&& step is Refuse <==> if before.granted() {
                !asked.takes_grants
            } else {
                !asked.has_secret || !asked.password_is_enough
            }
        }),
        step is SendProof <==> before.stage() == Stage::Proving && reply is AuthAnswer,
        step is CheckProof <==> before.stage() == Stage::Proved && reply is AuthProved,
        step is PresentAndProve || step is Prove ==> after.stage() == Stage::Proving,
        step is SendProof ==> after.stage() == Stage::Proved,
        step is CheckProof || step is Present ==> after.stage() == Stage::Cleared,
        step is Announce <==> reply is AwaitingApproval && (before.stage() == Stage::Greeted
            || before.stage() == Stage::Cleared),
        step is Refuse || step is Unexpected ==> after.stage() == Stage::Closed,
{
}

}
