use vstd::prelude::*;

verus! {

/// What happened in one round.
#[derive(Clone, Copy, Debug, PartialEq, Eq, Structural)]
pub enum RoundOutcome {
    BothCooperated,
    LeftCheated,
    RightCheated,
    BothCheated,
}

/// One player's move.
#[derive(Clone, Copy, Debug, PartialEq, Eq, Structural)]
pub enum AgentResponse {
    Cooperate,
    Cheat,
}

/// A player of the game: it moves, then learns the opponent's move.
pub trait Agent: Sized {
    /// The move this agent makes next.
    spec fn next_move(&self) -> AgentResponse;

    /// This agent after it has seen the opponent play `other`.
    spec fn after(&self, other: AgentResponse) -> Self;

    fn play(&self) -> (r: AgentResponse)
        ensures
            r == self.next_move(),
    ;

    fn respond(&mut self, other: AgentResponse)
        ensures
            *final(self) == old(self).after(other),
    ;
}

/// The outcome of a round in which the players moved `l` and `r`.
pub open spec fn outcome_of(l: AgentResponse, r: AgentResponse) -> RoundOutcome {
    match (l, r) {
        (AgentResponse::Cooperate, AgentResponse::Cooperate) => RoundOutcome::BothCooperated,
        (AgentResponse::Cooperate, AgentResponse::Cheat) => RoundOutcome::RightCheated,
        (AgentResponse::Cheat, AgentResponse::Cooperate) => RoundOutcome::LeftCheated,
        (AgentResponse::Cheat, AgentResponse::Cheat) => RoundOutcome::BothCheated,
    }
}

/// The points the left player gets for an outcome.
pub open spec fn left_gain(o: RoundOutcome) -> int {
    match o {
        RoundOutcome::BothCooperated => 2,
        RoundOutcome::RightCheated => -1,
        RoundOutcome::LeftCheated => 3,
        RoundOutcome::BothCheated => 0,
    }
}

/// The points the right player gets for an outcome.
pub open spec fn right_gain(o: RoundOutcome) -> int {
    match o {
        RoundOutcome::BothCooperated => 2,
        RoundOutcome::RightCheated => 3,
        RoundOutcome::LeftCheated => -1,
        RoundOutcome::BothCheated => 0,
    }
}

/// Two agents and their running scores.
pub struct Game<L, R> {
    left: Box<L>,
    right: Box<R>,
    left_score: i32,
    right_score: i32,
}

impl<L: Agent, R: Agent> Game<L, R> {
    pub closed spec fn left_agent(&self) -> L {
        *self.left
    }

    pub closed spec fn right_agent(&self) -> R {
        *self.right
    }

    pub closed spec fn left_points(&self) -> int {
        self.left_score as int
    }

    pub closed spec fn right_points(&self) -> int {
        self.right_score as int
    }

    pub fn new(left: Box<L>, right: Box<R>) -> (g: Self)
        ensures
            g.left_agent() == *left,
            g.right_agent() == *right,
            g.left_points() == 0,
            g.right_points() == 0,
    {
        Game { left_score: 0, right_score: 0, left, right }
    }

    pub fn left_score(&self) -> (r: i32)
        ensures
            r == self.left_points(),
    {
        self.left_score
    }

    pub fn right_score(&self) -> (r: i32)
        ensures
            r == self.right_points(),
    {
        self.right_score
    }

    /// Both agents move; each scores for the outcome and then sees the other's move.
    pub fn play_round(&mut self) -> (res: RoundOutcome)
        requires
            i32::MIN + 1 <= old(self).left_points() <= i32::MAX - 3,
            i32::MIN + 1 <= old(self).right_points() <= i32::MAX - 3,
        ensures
            res == outcome_of(old(self).left_agent().next_move(), old(self).right_agent().next_move()),
            final(self).left_points() == old(self).left_points() + left_gain(res),
            final(self).right_points() == old(self).right_points() + right_gain(res),
            final(self).left_agent() == old(self).left_agent().after(
                old(self).right_agent().next_move(),
            ),
            final(self).right_agent() == old(self).right_agent().after(
                old(self).left_agent().next_move(),
            ),
    {
        let l = self.left.play();
        let r = self.right.play();
        let (res, left_score, right_score) = match (l, r) {
            (AgentResponse::Cooperate, AgentResponse::Cooperate) => (RoundOutcome::BothCooperated, 2i32, 2i32),
            (AgentResponse::Cooperate, AgentResponse::Cheat) => (RoundOutcome::RightCheated, -1i32, 3i32),
            (AgentResponse::Cheat, AgentResponse::Cooperate) => (RoundOutcome::LeftCheated, 3i32, -1i32),
            (AgentResponse::Cheat, AgentResponse::Cheat) => (RoundOutcome::BothCheated, 0i32, 0i32),
        };
        self.left_score = self.left_score + left_score;
        self.right_score = self.right_score + right_score;
        self.left.respond(r);
        self.right.respond(l);
        res
    }
}

/// Always cheats.
pub struct CheatingAgent {}

impl Default for CheatingAgent {
    fn default() -> (r: Self) {
        CheatingAgent {}
    }
}

impl Agent for CheatingAgent {
    open spec fn next_move(&self) -> AgentResponse {
        AgentResponse::Cheat
    }

    open spec fn after(&self, other: AgentResponse) -> Self {
        *self
    }

    fn play(&self) -> (r: AgentResponse) {
        AgentResponse::Cheat
    }

    fn respond(&mut self, other: AgentResponse) {
    }
}

/// Always cooperates.
pub struct CooperatingAgent {}

impl Default for CooperatingAgent {
    fn default() -> (r: Self) {
        CooperatingAgent {}
    }
}

impl Agent for CooperatingAgent {
    open spec fn next_move(&self) -> AgentResponse {
        AgentResponse::Cooperate
    }

    open spec fn after(&self, other: AgentResponse) -> Self {
        *self
    }

    fn play(&self) -> (r: AgentResponse) {
        AgentResponse::Cooperate
    }

    fn respond(&mut self, other: AgentResponse) {
    }
}

/// Cooperates until the opponent cheats once, then cheats for good.
pub struct GrudgerAgent {
    answer: AgentResponse,
}

impl Default for GrudgerAgent {
    fn default() -> (r: Self)
        ensures
            r.next_move() == AgentResponse::Cooperate,
    {
        GrudgerAgent { answer: AgentResponse::Cooperate }
    }
}

impl Agent for GrudgerAgent {
    closed spec fn next_move(&self) -> AgentResponse {
        self.answer
    }

    closed spec fn after(&self, other: AgentResponse) -> Self {
        if other == AgentResponse::Cheat {
            GrudgerAgent { answer: AgentResponse::Cheat }
        } else {
            *self
        }
    }

    fn play(&self) -> (r: AgentResponse) {
        self.answer
    }

    fn respond(&mut self, other: AgentResponse) {
        if other == AgentResponse::Cheat {
            self.answer = other;
        }
    }
}

/// Cooperates first, then repeats the opponent's last move.
pub struct CopycatAgent {
    answer: AgentResponse,
}

impl Default for CopycatAgent {
    fn default() -> (r: Self)
        ensures
            r.next_move() == AgentResponse::Cooperate,
    {
        CopycatAgent { answer: AgentResponse::Cooperate }
    }
}

impl Agent for CopycatAgent {
    closed spec fn next_move(&self) -> AgentResponse {
        self.answer
    }

    closed spec fn after(&self, other: AgentResponse) -> Self {
        CopycatAgent { answer: other }
    }

    fn play(&self) -> (r: AgentResponse) {
        self.answer
    }

    fn respond(&mut self, other: AgentResponse) {
        self.answer = other;
    }
}

/// Opens with cooperate, cheat, cooperate, cooperate; then copies the opponent
/// if it cheated in those rounds, and cheats for good if it did not.
pub struct DetectiveAgent {
    initial: u8,
    copycat_mode: bool,
    last_response: AgentResponse,
}

impl Default for DetectiveAgent {
    fn default() -> (r: Self)
        ensures
            r.rounds_seen() == 0,
            !r.copies(),
    {
        DetectiveAgent { initial: 0, copycat_mode: false, last_response: AgentResponse::Cooperate }
    }
}

impl DetectiveAgent {
    /// How many opening rounds it has seen, up to four.
    pub closed spec fn rounds_seen(&self) -> nat {
        self.initial as nat
    }

    /// Whether the opponent cheated in the opening.
    pub closed spec fn copies(&self) -> bool {
        self.copycat_mode
    }
}

impl Agent for DetectiveAgent {
    closed spec fn next_move(&self) -> AgentResponse {
        if self.initial >= 4 {
            if self.copycat_mode {
                self.last_response
            } else {
                AgentResponse::Cheat
            }
        } else if self.initial == 1 {
            AgentResponse::Cheat
        } else {
            AgentResponse::Cooperate
        }
    }

    closed spec fn after(&self, other: AgentResponse) -> Self {
        if self.initial <= 3 {
            DetectiveAgent {
                initial: (self.initial + 1) as u8,
                copycat_mode: self.copycat_mode || other == AgentResponse::Cheat,
                last_response: other,
            }
        } else {
            DetectiveAgent { last_response: other, ..*self }
        }
    }

    fn play(&self) -> (r: AgentResponse) {
        if self.initial >= 4 {
            if self.copycat_mode {
                self.last_response
            } else {
                AgentResponse::Cheat
            }
        } else if self.initial == 1 {
            AgentResponse::Cheat
        } else {
            AgentResponse::Cooperate
        }
    }

    fn respond(&mut self, other: AgentResponse) {
        self.last_response = other;
        if self.initial <= 3 {
            self.copycat_mode = self.copycat_mode || self.last_response == AgentResponse::Cheat;
            self.initial = self.initial + 1;
        }
    }
}

} // verus!
