//! The certificate gate: what decides a Lyapunov certificate's fate apart from
//! its floating-point bounds.
//!
//! A certificate names its verifier kind and the closed-loop system it is
//! proven against, and carries a ternary energy whose shape must be
//! consistent before any bound is computed. The re-proof then refines a
//! worklist of boxes level by level; after each level the outcome is decided
//! from how many boxes failed and how deep the refinement is.
use vstd::prelude::*;
use crate::text::same_text;

verus! {

/// The one verifier kind this gate re-proves.
pub open spec fn certificate_kind() -> Seq<char> {
    "lyapunov-ternary-taylor-crown"@
}

/// The closed-loop systems of the registry.
#[derive(Clone, Copy, Debug, PartialEq, Eq)]
pub enum SystemKind {
    /// Smooth double integrator (a pure quadratic energy suffices).
    LinearDoubleIntegrator,
    /// Double integrator with actuator saturation.
    SaturatedDoubleIntegrator,
    /// Free/contact mode switch with actuator saturation.
    SaturatedHybridWallContact,
    /// Reversed Van der Pol oscillator (nonlinear, non-convex region of attraction).
    ReversedVanDerPol,
}

/// The registered system that a certificate's `system` id names, if any.
pub open spec fn system_of(id: Seq<char>) -> Option<SystemKind> {
    if id == "linear-double-integrator"@ {
        Some(SystemKind::LinearDoubleIntegrator)
    } else if id == "saturated-double-integrator"@ {
        Some(SystemKind::SaturatedDoubleIntegrator)
    } else if id == "saturated-hybrid-wall-contact"@ {
        Some(SystemKind::SaturatedHybridWallContact)
    } else if id == "reversed-van-der-pol"@ {
        Some(SystemKind::ReversedVanDerPol)
    } else {
        None
    }
}

/// Looks a system id up in the registry of certified systems.
pub fn system_kind(id: &str) -> (r: Option<SystemKind>)
    ensures
        r == system_of(id@),
{
    if same_text(id, "linear-double-integrator") {
        Some(SystemKind::LinearDoubleIntegrator)
    } else if same_text(id, "saturated-double-integrator") {
        Some(SystemKind::SaturatedDoubleIntegrator)
    } else if same_text(id, "saturated-hybrid-wall-contact") {
        Some(SystemKind::SaturatedHybridWallContact)
    } else if same_text(id, "reversed-van-der-pol") {
        Some(SystemKind::ReversedVanDerPol)
    } else {
        None
    }
}

/// The energy's layer lengths agree: `h` hidden units, `h` output weights,
/// and `2·h` ternary weights. An empty head (`h = 0`) is the pure quadratic.
pub open spec fn lengths_consistent(b1_len: nat, w2_len: nat, t_len: nat) -> bool {
    w2_len == b1_len && t_len == 2 * b1_len
}

/// Every weight is −1, 0 or +1.
pub open spec fn all_ternary(t: Seq<i8>) -> bool {
    forall|i: int| 0 <= i < t.len() ==> -1 <= #[trigger] t[i] <= 1
}

/// How an energy's shape is malformed.
#[derive(Clone, Copy, Debug, PartialEq, Eq)]
pub enum EnergyFault {
    /// The lengths of `b1`, `w2` and `t` disagree (`t` needs `2·b1`).
    Lengths { b1: usize, w2: usize, t: usize },
    /// `t` has an entry outside {−1, 0, 1}.
    NotTernary,
}

/// Why a certificate is rejected before any bound is computed.
#[derive(Debug)]
pub enum HeaderError {
    /// An unknown certificate kind.
    Kind(String),
    /// An unknown certified system.
    System(String),
    /// A malformed energy.
    Energy(EnergyFault),
}

/// Checks, in order, the certificate kind, the system id, the energy's
/// layer lengths and its ternary weights, and names the system on success.
pub fn check_header(kind: &str, system: &str, b1_len: usize, w2_len: usize, t: &[i8]) -> (r: Result<
    SystemKind,
    HeaderError,
>)
    ensures
        match r {
            Ok(sys) => {
                &&& kind@ == certificate_kind()
                &&& system_of(system@) == Some(sys)
                &&& lengths_consistent(b1_len as nat, w2_len as nat, t@.len())
                &&& all_ternary(t@)
                &&& w2_len == b1_len
                &&& t@.len() == 2 * b1_len
                &&& forall|i: int| 0 <= i < t@.len() ==> -1 <= #[trigger] t@[i] <= 1
            },
            Err(HeaderError::Kind(k)) => kind@ != certificate_kind() && k@ == kind@,
            Err(HeaderError::System(s)) => {
                &&& kind@ == certificate_kind()
                &&& system_of(system@) is None
                &&& s@ == system@
            },
            Err(HeaderError::Energy(EnergyFault::Lengths { b1, w2, t: tl })) => {
                &&& kind@ == certificate_kind()
                &&& system_of(system@) is Some
                &&& !lengths_consistent(b1_len as nat, w2_len as nat, t@.len())
                &&& b1 == b1_len
                &&& w2 == w2_len
                &&& tl == t@.len()
            },
            Err(HeaderError::Energy(EnergyFault::NotTernary)) => {
                &&& kind@ == certificate_kind()
                &&& system_of(system@) is Some
                &&& lengths_consistent(b1_len as nat, w2_len as nat, t@.len())
                &&& !all_ternary(t@)
            },
        },
{
    if !same_text(kind, "lyapunov-ternary-taylor-crown") {
        return Err(HeaderError::Kind(kind.to_owned()));
    }
    let sys = match system_kind(system) {
        Some(s) => s,
        None => {
            return Err(HeaderError::System(system.to_owned()));
        },
    };
    let h = b1_len;
    if w2_len != h || t.len() / 2 != h || t.len() % 2 != 0 {
        return Err(HeaderError::Energy(EnergyFault::Lengths { b1: b1_len, w2: w2_len, t: t.len() }));
    }
    let mut i: usize = 0;
    while i < t.len()
        invariant
            i <= t@.len(),
            forall|j: int| 0 <= j < i ==> -1 <= #[trigger] t@[j] <= 1,
            kind@ == certificate_kind(),
            system_of(system@) == Some(sys),
            lengths_consistent(b1_len as nat, w2_len as nat, t@.len()),
        decreases t.len() - i,
    {
        if t[i] < -1 || t[i] > 1 {
            proof {
                assert(!(-1 <= t@[i as int] <= 1));
            }
            return Err(HeaderError::Energy(EnergyFault::NotTernary));
        }
        i = i + 1;
    }
    Ok(sys)
}

/// A header passes only when every one of the `2·h` ternary weights — each
/// entry of `t`, both halves — is −1, 0 or +1, and the layer lengths agree.
pub proof fn lemma_accepted_weights_are_ternary(b1_len: nat, w2_len: nat, t: Seq<i8>)
    requires
        lengths_consistent(b1_len, w2_len, t.len()),
        all_ternary(t),
    ensures
        w2_len == b1_len,
        t.len() == 2 * b1_len,
        forall|i: int| 0 <= i < t.len() ==> (t[i] == -1 || t[i] == 0 || t[i] == 1),
{
    assert forall|i: int| 0 <= i < t.len() implies (t[i] == -1 || t[i] == 0 || t[i] == 1) by {
        assert(-1 <= t[i] <= 1);
    }
}

/// A single weight outside {−1, 0, 1}, wherever it stands in `t`, makes the
/// weights not ternary.
pub proof fn lemma_one_bad_weight_spoils_all(t: Seq<i8>, i: int)
    requires
        0 <= i < t.len(),
        t[i] < -1 || t[i] > 1,
    ensures
        !all_ternary(t),
{
}

/// A level fails for good when more boxes than this are still unproven.
pub const BOX_CAP: usize = 4_000_000;

/// The deepest refinement level.
pub const MAX_DEPTH: u32 = 20;

/// What is decided once every box of a level has been bounded.
#[derive(Clone, Copy, Debug, PartialEq, Eq)]
pub enum LevelOutcome {
    /// No box failed: the certificate holds over the whole region.
    Certified,
    /// Boxes failed and refinement may not go on: the first failed box
    /// refutes the certificate.
    Refuted,
    /// Boxes failed: split each into four and bound the next level.
    Refine,
}

/// The outcome of a level with `fails` unproven boxes at refinement `depth`.
pub open spec fn level_outcome(fails: nat, depth: nat) -> LevelOutcome {
    if fails == 0 {
        LevelOutcome::Certified
    } else if fails > BOX_CAP || depth >= MAX_DEPTH {
        LevelOutcome::Refuted
    } else {
        LevelOutcome::Refine
    }
}

/// The progress of a re-proof: boxes proven so far and the current level.
#[derive(Clone, Copy, Debug, PartialEq, Eq)]
pub struct Refinement {
    /// Boxes proven (sound ΔV < 0) across all levels so far.
    pub certified: u64,
    /// The current refinement level.
    pub depth: u32,
}

impl Refinement {
    /// A re-proof before its first level.
    pub fn start() -> (r: Self)
        ensures
            r.certified == 0,
            r.depth == 0,
    {
        Refinement { certified: 0, depth: 0 }
    }

    /// Closes a level in which `proven` boxes were proven and `fails` were
    /// not, and says what comes next. Refining moves to the next level.
    pub fn close_level(&mut self, proven: u64, fails: usize) -> (o: LevelOutcome)
        requires
            old(self).certified + proven <= u64::MAX,
        ensures
            o == level_outcome(fails as nat, old(self).depth as nat),
            final(self).certified == old(self).certified + proven,
            final(self).depth == if o == LevelOutcome::Refine {
                old(self).depth + 1
            } else {
                old(self).depth as int
            },
    {
        self.certified = self.certified + proven;
        if fails == 0 {
            LevelOutcome::Certified
        } else if fails > BOX_CAP || self.depth >= MAX_DEPTH {
            LevelOutcome::Refuted
        } else {
            self.depth = self.depth + 1;
            LevelOutcome::Refine
        }
    }
}

/// A re-proof ends: a level is only refined below the deepest level, so no
/// more than `MAX_DEPTH + 1` levels are ever bounded, and at the deepest level
/// every outcome is final.
pub proof fn lemma_refinement_ends(fails: nat, depth: nat)
    ensures
        level_outcome(fails, depth) == LevelOutcome::Refine ==> depth < MAX_DEPTH,
        depth >= MAX_DEPTH ==> level_outcome(fails, depth) != LevelOutcome::Refine,
{
}

/// A certificate is certified exactly when a level leaves no box unproven.
pub proof fn lemma_certified_iff_no_failure(fails: nat, depth: nat)
    ensures
        (level_outcome(fails, depth) == LevelOutcome::Certified) == (fails == 0),
{
}

} // verus!
