//! Epistemic dimensions: validity, authority, capture trust, verification
//! level — four orthogonal questions, never collapsed into one enum — plus
//! internal engine evaluation states.
use vstd::prelude::*;

verus! {

/// **Validity** — is the artifact still true in the target world?
///
/// Lives on a validation attestation, never on the artifact. `Unknown` is
/// the honest answer when evidence is missing; it always denies auto-reuse.
#[derive(Debug, Clone, Copy, PartialEq, Eq, Structural, Hash)]
pub enum Validity {
    /// All tracked dependency projections retain their relevant values, or a
    /// verifier re-established the contract.
    Valid,
    /// The artifact's validity contract no longer holds.
    Stale,
    /// Trellis lacks evidence to call the artifact valid or stale.
    Unknown,
}

/// **Authority** — how authoritative was the evidence that established the
/// attestation?
///
/// World drift never weakens the authority of an existing attestation; it
/// makes that attestation *not yet applicable* to the new world.
#[derive(Debug, Clone, Copy, PartialEq, Eq, Structural, Hash)]
pub enum Authority {
    /// Established by a freeze against an authoritative semantic snapshot.
    Authoritative,
    /// Established mid-task against the provisional live overlay; may be
    /// strengthened later only by appending a stronger attestation.
    Provisional,
}

/// **CaptureTrust** — how completely were the observation channels of a
/// derivation captured? Ordered from weakest to strongest.
///
/// Trust is inherited from the capture channel, never claimed by the
/// artifact.
#[derive(Debug, Clone, Copy, PartialEq, Eq, Structural, PartialOrd, Ord, Hash)]
pub enum CaptureTrust {
    /// Weakest. The derivation relied on observations Trellis never
    /// captured. Default policy: no auto-reuse regardless of class.
    Unobserved,
    /// Dependencies were agent-declared, not captured.
    DeclaredOnly,
    /// Mixed channels; some observations unrecorded.
    Partial,
    /// Strongest. Every dependency-relevant observation channel
    /// participating in the derivation was captured with sufficient
    /// semantics for the artifact's reuse policy.
    Complete,
}

/// Position of a capture trust in the weakest-to-strongest order (the
/// declaration order, which the derived `Ord` follows).
pub open spec fn trust_rank(t: CaptureTrust) -> int {
    match t {
        CaptureTrust::Unobserved => 0,
        CaptureTrust::DeclaredOnly => 1,
        CaptureTrust::Partial => 2,
        CaptureTrust::Complete => 3,
    }
}

impl CaptureTrust {
    /// Position in the weakest-to-strongest order.
    pub fn rank(self) -> (r: u8)
        ensures
            r == trust_rank(self),
    {
        match self {
            CaptureTrust::Unobserved => 0,
            CaptureTrust::DeclaredOnly => 1,
            CaptureTrust::Partial => 2,
            CaptureTrust::Complete => 3,
        }
    }
}

/// An observation channel that participated in a derivation.
///
/// `Complete` capture is defined by *evidence about channels*, not by tool
/// naming: any fully-intercepted channel can reach
/// [`CaptureTrust::Complete`].
#[derive(Debug, Clone, Copy, PartialEq, Eq, Structural, Hash)]
pub enum CaptureChannel {
    /// A trellis-aware structural tool; semantically captured.
    TrellisTool,
    /// A fully intercepted external channel (e.g. wrapped shell tool).
    FullyIntercepted,
    /// A channel captured only partially; some observations unrecorded.
    PartiallyCaptured,
    /// Dependencies agent-declared, nothing captured.
    DeclaredOnly,
    /// Observations Trellis never captured at all.
    Unobserved,
}

/// The capture trust a single channel can attest to.
pub open spec fn channel_trust(c: CaptureChannel) -> CaptureTrust {
    match c {
        CaptureChannel::TrellisTool => CaptureTrust::Complete,
        CaptureChannel::FullyIntercepted => CaptureTrust::Complete,
        CaptureChannel::PartiallyCaptured => CaptureTrust::Partial,
        CaptureChannel::DeclaredOnly => CaptureTrust::DeclaredOnly,
        CaptureChannel::Unobserved => CaptureTrust::Unobserved,
    }
}

impl CaptureChannel {
    /// The capture trust this channel alone can attest to.
    pub fn trust(self) -> (r: CaptureTrust)
        ensures
            r == channel_trust(self),
    {
        match self {
            CaptureChannel::TrellisTool | CaptureChannel::FullyIntercepted => {
                CaptureTrust::Complete
            },
            CaptureChannel::PartiallyCaptured => CaptureTrust::Partial,
            CaptureChannel::DeclaredOnly => CaptureTrust::DeclaredOnly,
            CaptureChannel::Unobserved => CaptureTrust::Unobserved,
        }
    }
}

/// The weakest trust among the channels; no channels means nothing was
/// captured, which is `Unobserved`.
pub open spec fn weakest_trust(channels: Seq<CaptureChannel>) -> CaptureTrust
    decreases channels.len(),
{
    if channels.len() == 0 {
        CaptureTrust::Unobserved
    } else if channels.len() == 1 {
        channel_trust(channels[0])
    } else {
        let rest = weakest_trust(channels.drop_last());
        let t = channel_trust(channels.last());
        if trust_rank(t) < trust_rank(rest) {
            t
        } else {
            rest
        }
    }
}

/// For a non-empty channel list the weakest trust is attained by some
/// channel and is no stronger than any channel's trust.
pub proof fn lemma_weakest_trust_is_minimum(channels: Seq<CaptureChannel>)
    requires
        channels.len() > 0,
    ensures
        exists|i: int| 0 <= i < channels.len() && weakest_trust(channels) == channel_trust(channels[i]),
        forall|i: int|
            0 <= i < channels.len() ==> trust_rank(weakest_trust(channels)) <= trust_rank(
                #[trigger] channel_trust(channels[i]),
            ),
    decreases channels.len(),
{
    if channels.len() == 1 {
        assert(weakest_trust(channels) == channel_trust(channels[0]));
    } else {
        let init = channels.drop_last();
        lemma_weakest_trust_is_minimum(init);
        let w = weakest_trust(init);
        let k = choose|i: int| 0 <= i < init.len() && w == channel_trust(init[i]);
        assert(init[k] == channels[k]);
        assert forall|i: int| 0 <= i < channels.len() implies trust_rank(
            weakest_trust(channels),
        ) <= trust_rank(#[trigger] channel_trust(channels[i])) by {
            if i < channels.len() - 1 {
                assert(init[i] == channels[i]);
            }
        }
        if trust_rank(channel_trust(channels.last())) < trust_rank(w) {
            assert(weakest_trust(channels) == channel_trust(channels[channels.len() - 1]));
        } else {
            assert(weakest_trust(channels) == channel_trust(channels[k]));
        }
    }
}

/// Derive the capture trust of a derivation from its channels: the trust is
/// the **weakest** channel that participated. One unobserved channel makes
/// the whole derivation `Unobserved`. No channels at all means nothing was
/// captured — also `Unobserved`.
pub fn capture_trust_from_channels(channels: &[CaptureChannel]) -> (r: CaptureTrust)
    ensures
        r == weakest_trust(channels@),
        channels@.len() == 0 ==> r == CaptureTrust::Unobserved,
        channels@.len() > 0 ==> (exists|i: int|
            0 <= i < channels@.len() && r == channel_trust(channels@[i])),
        forall|i: int|
            0 <= i < channels@.len() ==> trust_rank(r) <= trust_rank(
                #[trigger] channel_trust(channels@[i]),
            ),
{
    if channels.len() == 0 {
        return CaptureTrust::Unobserved;
    }
    let mut weakest = channels[0].trust();
    let mut i: usize = 1;
    while i < channels.len()
        invariant
            1 <= i <= channels.len(),
            weakest == weakest_trust(channels@.subrange(0, i as int)),
        decreases channels.len() - i,
    {
        let t = channels[i].trust();
        proof {
            let s = channels@.subrange(0, i + 1);
            assert(s.drop_last() =~= channels@.subrange(0, i as int));
            assert(s.last() == channels@[i as int]);
        }
        if t.rank() < weakest.rank() {
            weakest = t;
        }
        i = i + 1;
    }
    proof {
        assert(channels@.subrange(0, channels.len() as int) =~= channels@);
        lemma_weakest_trust_is_minimum(channels@);
    }
    weakest
}

/// **VerificationLevel** — how strong is the verification attached to the
/// attestation? Ordered from weakest to strongest.
#[derive(Debug, Clone, Copy, PartialEq, Eq, Structural, PartialOrd, Ord, Hash)]
pub enum VerificationLevel {
    /// Nothing attached.
    Unverified,
    /// Backed by recorded evidence references, no deterministic verifier.
    EvidenceBacked,
    /// A structural query verifies the claim.
    StructuralQuery,
    /// A test (e.g. property test or unit test) verifies the claim.
    Test,
    /// A static analysis verifies the claim.
    Static,
    /// Established deterministically; the strongest level.
    Deterministic,
}

/// Position of a verification level in the weakest-to-strongest order.
pub open spec fn level_rank(l: VerificationLevel) -> int {
    match l {
        VerificationLevel::Unverified => 0,
        VerificationLevel::EvidenceBacked => 1,
        VerificationLevel::StructuralQuery => 2,
        VerificationLevel::Test => 3,
        VerificationLevel::Static => 4,
        VerificationLevel::Deterministic => 5,
    }
}

impl VerificationLevel {
    /// Position in the weakest-to-strongest order.
    pub fn rank(self) -> (r: u8)
        ensures
            r == level_rank(self),
    {
        match self {
            VerificationLevel::Unverified => 0,
            VerificationLevel::EvidenceBacked => 1,
            VerificationLevel::StructuralQuery => 2,
            VerificationLevel::Test => 3,
            VerificationLevel::Static => 4,
            VerificationLevel::Deterministic => 5,
        }
    }
}

/// Internal engine evaluation states.
///
/// These describe the invalidation machinery's view of a projection or
/// artifact *during evaluation*. They are **not** part of the public truth
/// model and must never appear on artifacts or attestations — the public
/// model is [`Validity`] + [`Authority`].
#[derive(Debug, Clone, Copy, PartialEq, Eq, Structural, Hash)]
pub enum EngineState {
    /// All tracked dependency values retained.
    Green,
    /// A dependency may have changed; the new value is not yet evaluated.
    Dirty,
    /// A dependency changed, but the artifact may remain semantically true.
    Verify,
    /// The validity contract no longer holds.
    Red,
}

/// The floor reuse policy: auto-reuse requires `Valid` validity,
/// `Authoritative` authority, and capture trust better than `Unobserved`.
pub open spec fn auto_reuse_floor(
    validity: Validity,
    authority: Authority,
    capture_trust: CaptureTrust,
) -> bool {
    &&& validity == Validity::Valid
    &&& authority == Authority::Authoritative
    &&& capture_trust != CaptureTrust::Unobserved
}

/// The floor reuse policy.
///
/// This is a **floor, not the whole policy**: artifact class, relevance, and
/// consumer trust policy may deny reuse further, but never relax these
/// conditions.
pub fn default_auto_reuse(
    validity: Validity,
    authority: Authority,
    capture_trust: CaptureTrust,
) -> (r: bool)
    ensures
        r == auto_reuse_floor(validity, authority, capture_trust),
{
    matches!(validity, Validity::Valid) && matches!(authority, Authority::Authoritative)
        && !matches!(capture_trust, CaptureTrust::Unobserved)
}

} // verus!
