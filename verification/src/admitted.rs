//! The one admitted fence: what was analysed at admission is what is applied.

use vstd::prelude::*;
use vstd::string::*;

pub mod laws;
pub mod named_root;
pub mod protected_roots;

use crate::caveats::{Caveats, CaveatsView, Scope, ScopeView};
use crate::error::{ToolError, ToolResult};
use crate::provenance::{
    admission, decide_admission, AdmissionDecision, AdmissionReject, AuthorityView,
    ResolvedAuthority, ResolvedScope, ResolvedView, ScopeRelation,
};
use crate::report::{
    first_shortfall, report_of, unenforceable_axis, ConfinementMechanism, EnforcementFloor,
    FloorView, UnenforceableAxis,
};
use crate::sets::{lemma_members_contains, members, OrderedSet};
use crate::text::{chars_of, occurs_in, quote, quoted, text_contains, trim_text, trimmed};

verus! {

/// The directory names of the harness's own private stores.
pub open spec fn private_markers() -> Seq<Seq<char>> {
    seq![".newt"@, ".ssh"@, ".gnupg"@, ".aws"@, ".config/gh"@]
}

/// The entry passes through a private store: one of the markers stands in it
/// as a run of whole components.
pub open spec fn reaches_private(entry: Seq<char>) -> bool {
    exists|i: int|
        0 <= i < private_markers().len() && occurs_in(
            "/"@ + #[trigger] private_markers()[i] + "/"@,
            "/"@ + trimmed(entry, '/') + "/"@,
        )
}

fn passes_through(padded: &Vec<char>, marker: &str) -> (r: bool)
    ensures
        r == occurs_in("/"@ + marker@ + "/"@, padded@),
{
    let needle: String = "/".to_owned().concat(marker).concat("/");
    text_contains(padded, &chars_of(needle.as_str()))
}

/// Whether a path entry reaches one of the harness's private stores.
pub fn entry_reaches_harness_private(entry: &str) -> (r: bool)
    ensures
        r == reaches_private(entry@),
{
    let padded: String = "/".to_owned().concat(trim_text(entry, '/').as_str()).concat("/");
    let chars: Vec<char> = chars_of(padded.as_str());
    let r: bool = passes_through(&chars, ".newt") || passes_through(&chars, ".ssh")
        || passes_through(&chars, ".gnupg") || passes_through(&chars, ".aws") || passes_through(
        &chars,
        ".config/gh",
    );
    proof {
        let m = private_markers();
        assert(m[0] == ".newt"@ && m[1] == ".ssh"@ && m[2] == ".gnupg"@ && m[3] == ".aws"@ && m[4]
            == ".config/gh"@);
    }
    r
}

/// The refusal of a closure entry that reaches a private store.
pub open spec fn private_refusal(entry: Seq<char>) -> Seq<char> {
    "refusing closure entry "@ + quoted(entry)
        + ": it reaches a harness-private store (the runtime closure must be harness-disjoint)"@
}

/// The scope is bounded and none of its items reaches a private store.
pub open spec fn disjoint_scope(scope: ResolvedView) -> bool {
    scope matches ResolvedView::Bounded { concrete, .. } && forall|e: Seq<char>|
        #[trigger] concrete.contains(e) ==> !reaches_private(e)
}

/// The closure stays away from the private stores on every axis that bears
/// authority over files and programs; an unbounded or unknown axis does not.
pub open spec fn disjoint_closure(closure: AuthorityView) -> bool {
    disjoint_scope(closure.fs_read) && disjoint_scope(closure.fs_write) && disjoint_scope(
        closure.exec,
    )
}

fn scope_is_disjoint(scope: &ResolvedScope) -> (r: bool)
    ensures
        r == disjoint_scope(scope@),
{
    match scope {
        ResolvedScope::Unbounded | ResolvedScope::Unknown => false,
        ResolvedScope::Bounded { concrete, .. } => {
            let entries: &Vec<String> = concrete.as_vec();
            let mut i: usize = 0;
            while i < entries.len()
                invariant
                    i <= entries.len(),
                    members(entries@) == concrete@,
                    scope@ matches ResolvedView::Bounded { concrete: c, .. } && c == concrete@,
                    forall|k: int| 0 <= k < i ==> !reaches_private((#[trigger] entries@[k])@),
                decreases entries.len() - i,
            {
                if entry_reaches_harness_private(entries[i].as_str()) {
                    proof {
                        let e = entries@[i as int]@;
                        lemma_members_contains(entries@, e);
                        assert(concrete@.contains(e));
                    }
                    return false;
                }
                i = i + 1;
            }
            proof {
                assert forall|e: Seq<char>| #[trigger]
                    concrete@.contains(e) implies !reaches_private(e) by {
                    lemma_members_contains(entries@, e);
                }
            }
            true
        },
    }
}

/// Whether a runtime closure is disjoint from the harness's private stores.
pub fn closure_is_harness_disjoint(closure: &ResolvedAuthority) -> (r: bool)
    ensures
        r == disjoint_closure(closure@),
{
    scope_is_disjoint(&closure.fs_read) && scope_is_disjoint(&closure.fs_write)
        && scope_is_disjoint(&closure.exec)
}

/// The programs that the harness adds beyond the grant. None of them reaches
/// a private store.
#[derive(Debug, PartialEq, Eq)]
pub struct RuntimeClosure {
    exec exec: OrderedSet<String>,
}

impl View for RuntimeClosure {
    type V = Set<Seq<char>>;

    closed spec fn view(&self) -> Set<Seq<char>> {
        self.exec@
    }
}

impl RuntimeClosure {
    #[verifier::type_invariant]
    spec fn is_disjoint(self) -> bool {
        forall|e: Seq<char>| #[trigger] self.exec@.contains(e) ==> !reaches_private(e)
    }

    /// The closure that adds nothing.
    pub fn empty() -> (r: Self)
        ensures
            r@ == Set::<Seq<char>>::empty(),
    {
        RuntimeClosure { exec: OrderedSet::new() }
    }

    /// Declare one program. Refused where it reaches a private store.
    pub fn with_exec(self, program: String) -> (r: ToolResult<Self>)
        ensures
            r is Ok <==> !reaches_private(program@),
            r matches Ok(closure) ==> closure@ == self@.insert(program@),
            r matches Err(e) ==> e.is_denial(private_refusal(program@)),
    {
        proof {
            use_type_invariant(&self);
        }
        if entry_reaches_harness_private(program.as_str()) {
            return Err(
                ToolError::denied(
                    "refusing closure entry ".to_owned().concat(
                        quote(program.as_str()).as_str(),
                    ).concat(
                        ": it reaches a harness-private store (the runtime closure must be harness-disjoint)",
                    ),
                ),
            );
        }
        let mut programs: OrderedSet<String> = self.exec.clone();
        programs.insert(program);
        Ok(RuntimeClosure { exec: programs })
    }

    /// Whether nothing is declared.
    pub fn is_empty(&self) -> (r: bool)
        ensures
            r == (self@ == Set::<Seq<char>>::empty()),
    {
        self.exec.is_empty()
    }

    /// The declared programs; none of them reaches a private store.
    pub fn programs(&self) -> (r: &OrderedSet<String>)
        ensures
            r@ == self@,
            forall|e: Seq<char>| #[trigger] self@.contains(e) ==> !reaches_private(e),
    {
        proof {
            use_type_invariant(self);
        }
        &self.exec
    }
}

/// What a backend is about to install: an upper bound on what the fence
/// permits, and the substrate that the harness adds.
#[derive(Debug, PartialEq, Eq)]
pub struct BackendProjection {
    /// What the fence permits.
    pub resolved: ResolvedAuthority,
    /// What the harness adds for the fence to rest on.
    pub runtime_closure: ResolvedAuthority,
}

/// The model of [`BackendProjection`].
pub ghost struct ProjectionView {
    pub resolved: AuthorityView,
    pub runtime_closure: AuthorityView,
}

impl View for BackendProjection {
    type V = ProjectionView;

    open spec fn view(&self) -> ProjectionView {
        ProjectionView { resolved: self.resolved@, runtime_closure: self.runtime_closure@ }
    }
}

impl Clone for BackendProjection {
    fn clone(&self) -> (r: Self)
        ensures
            r@ == self@,
    {
        BackendProjection {
            resolved: self.resolved.clone(),
            runtime_closure: self.runtime_closure.clone(),
        }
    }
}

/// The caveats that the mechanism applies: the grant, with the declared
/// programs added where the exec axis is restricted.
pub open spec fn mechanism_authority(
    delegated: CaveatsView,
    closure: Set<Seq<char>>,
) -> CaveatsView {
    CaveatsView {
        exec: match delegated.exec {
            ScopeView::All => ScopeView::All,
            ScopeView::Only(programs) => ScopeView::Only(programs.union(closure)),
        },
        ..delegated
    }
}

/// The caveats that the mechanism applies.
pub fn mechanism_caveats_for(delegated: &Caveats, closure: &RuntimeClosure) -> (r: Caveats)
    ensures
        r@ == mechanism_authority(delegated@, closure@),
{
    let mut r: Caveats = delegated.clone();
    if let Scope::Only(programs) = &delegated.exec {
        let mut all: OrderedSet<String> = programs.clone();
        all.extend(&closure.exec);
        r.exec = Scope::Only(all);
    }
    r
}

/// The words for how a fence exceeds its bound.
pub open spec fn excess_words(relation: ScopeRelation) -> Seq<char> {
    match relation {
        ScopeRelation::Superset => "a WIDENING of"@,
        ScopeRelation::Incomparable => "incomparable with"@,
        ScopeRelation::Unknown => "not decidable against"@,
        _ => "outside"@,
    }
}

/// The refusal of a closure that is not disjoint from the private stores.
pub open spec fn closure_refusal() -> Seq<char> {
    "refusing to spawn: the backend runtime closure reaches harness-private authority or an undecidable axis (L3 BOUND: closure must be harness-disjoint)"@
}

/// The refusal of a fence that exceeds its bound.
pub open spec fn bound_refusal(reject: AdmissionReject) -> Seq<char> {
    "refusing to spawn: backend authority on the "@ + reject.axis.name_text() + " axis is "@
        + excess_words(reject.relation)
        + " the delegated grant ∪ declared runtime closure (L3 BOUND)"@
}

/// The refusal of a fence that is too weak.
pub open spec fn strength_refusal(
    unmet: UnenforceableAxis,
    mechanism: ConfinementMechanism,
) -> Seq<char> {
    "refusing to spawn: "@ + unmet.message_text() + " (governing sandbox: "@
        + mechanism.spec_kind().name_text() + ")"@
}

/// Why a fence is refused, if it is: the closure reaches a private store, or
/// the fence permits more than the grant and the closure authorize, or a
/// restricted axis is enforced less strongly than required, in this order.
pub open spec fn fence_refusal(
    delegated: CaveatsView,
    mechanism: ConfinementMechanism,
    floor: FloorView,
    projection: ProjectionView,
) -> Option<Seq<char>> {
    if !disjoint_closure(projection.runtime_closure) {
        Some(closure_refusal())
    } else {
        match admission(projection.resolved, delegated, projection.runtime_closure) {
            AdmissionDecision::Reject(reject) => Some(bound_refusal(reject)),
            AdmissionDecision::Admit => match first_shortfall(
                delegated,
                report_of(delegated, mechanism),
                floor,
            ) {
                Some(unmet) => Some(strength_refusal(unmet, mechanism)),
                None => None,
            },
        }
    }
}

/// Whether a fence with this projection is refused, and why.
fn refuse_fence(
    delegated: &Caveats,
    mechanism: ConfinementMechanism,
    floor: EnforcementFloor,
    projection: &BackendProjection,
) -> (r: Option<String>)
    ensures
        match fence_refusal(delegated@, mechanism, floor@, projection@) {
            None => r is None,
            Some(reason) => r is Some && r->0@ == reason,
        },
{
    if !closure_is_harness_disjoint(&projection.runtime_closure) {
        return Some(
            "refusing to spawn: the backend runtime closure reaches harness-private authority or an undecidable axis (L3 BOUND: closure must be harness-disjoint)".to_owned(),
        );
    }
    if let AdmissionDecision::Reject(reject) = decide_admission(
        &projection.resolved,
        delegated,
        &projection.runtime_closure,
    ) {
        let words: &'static str = match reject.relation {
            ScopeRelation::Superset => "a WIDENING of",
            ScopeRelation::Incomparable => "incomparable with",
            ScopeRelation::Unknown => "not decidable against",
            _ => "outside",
        };
        return Some(
            "refusing to spawn: backend authority on the ".to_owned().concat(
                reject.axis.name(),
            ).concat(" axis is ").concat(words).concat(
                " the delegated grant ∪ declared runtime closure (L3 BOUND)",
            ),
        );
    }
    if let Some(unmet) = unenforceable_axis(delegated, mechanism, floor) {
        return Some(
            "refusing to spawn: ".to_owned().concat(unmet.message().as_str()).concat(
                " (governing sandbox: ",
            ).concat(mechanism.kind().name()).concat(")"),
        );
    }
    None
}

/// The identity of an admitted fence: the content address of what was
/// admitted.
#[derive(Debug, PartialEq, Eq)]
pub struct AdmittedFenceId {
    /// The textual form of the content address.
    pub cid: String,
}

impl Clone for AdmittedFenceId {
    fn clone(&self) -> (r: Self)
        ensures
            r == *self,
    {
        AdmittedFenceId { cid: self.cid.clone() }
    }
}

/// A fence that was admitted: holding one is the proof that the caveats it
/// hands out were.
#[derive(Debug, PartialEq, Eq)]
pub struct AdmittedFence {
    mechanism: ConfinementMechanism,
    mechanism_caveats: Caveats,
    named_root: Option<named_root::NamedRootSeal>,
}

impl AdmittedFence {
    /// The mechanism that the fence was admitted under.
    pub closed spec fn spec_mechanism(self) -> ConfinementMechanism {
        self.mechanism
    }

    /// The caveats that the sandbox applies.
    pub closed spec fn spec_caveats(self) -> CaveatsView {
        self.mechanism_caveats@
    }

    /// The admitted root with its identity, for a fence around a named root.
    pub closed spec fn spec_named_root(self) -> Option<named_root::NamedRootSeal> {
        self.named_root
    }

    /// Admit a fence whose backend will install `projection` for the derived
    /// caveats, or refuse it.
    pub fn from_projection(
        delegated: &Caveats,
        closure: RuntimeClosure,
        mechanism: ConfinementMechanism,
        floor: EnforcementFloor,
        projection: &BackendProjection,
    ) -> (r: ToolResult<Self>)
        ensures
            match fence_refusal(delegated@, mechanism, floor@, projection@) {
                Some(reason) => r is Err && r->Err_0.is_denial(reason),
                None => r matches Ok(fence) && fence.spec_mechanism() == mechanism
                    && fence.spec_caveats() == mechanism_authority(delegated@, closure@)
                    && fence.spec_named_root() is None,
            },
    {
        match refuse_fence(delegated, mechanism, floor, projection) {
            Some(reason) => Err(ToolError::denied(reason)),
            None => Ok(
                AdmittedFence {
                    mechanism,
                    mechanism_caveats: mechanism_caveats_for(delegated, &closure),
                    named_root: None,
                },
            ),
        }
    }

    /// Admit a fence: derive the caveats once, ask the backend through
    /// `project` what it will install for exactly these, and refuse unless
    /// that stays within its bound and is strong enough.
    pub fn try_admit<F: FnOnce(&Caveats) -> BackendProjection>(
        delegated: &Caveats,
        closure: RuntimeClosure,
        mechanism: ConfinementMechanism,
        floor: EnforcementFloor,
        project: F,
    ) -> (r: ToolResult<Self>)
        requires
            forall|c: &Caveats|
                c@ == mechanism_authority(delegated@, closure@) ==> #[trigger] project.requires(
                    (c,),
                ),
        ensures
            exists|c: &Caveats, p: BackendProjection| #[trigger]
                project.ensures((c,), p) && c@ == mechanism_authority(delegated@, closure@) && (
                match fence_refusal(delegated@, mechanism, floor@, p@) {
                    Some(reason) => r is Err && r->Err_0.is_denial(reason),
                    None => r matches Ok(fence) && fence.spec_mechanism() == mechanism
                        && fence.spec_caveats() == c@ && fence.spec_named_root() is None,
                }),
    {
        let derived: Caveats = mechanism_caveats_for(delegated, &closure);
        let projection: BackendProjection = project(&derived);
        AdmittedFence::from_projection(delegated, closure, mechanism, floor, &projection)
    }

    /// The caveats that the sandbox applies: the same that were admitted.
    pub fn mechanism_caveats(&self) -> (r: &Caveats)
        ensures
            r@ == self.spec_caveats(),
    {
        &self.mechanism_caveats
    }

    /// The mechanism that the fence was admitted under.
    pub fn mechanism(&self) -> (r: ConfinementMechanism)
        ensures
            r == self.spec_mechanism(),
    {
        self.mechanism
    }
}

/// An admitted fence permits, on every axis, no more than the grant and the
/// declared closure together, and its closure stays away from the private
/// stores.
pub proof fn law_an_admitted_fence_is_bounded_and_disjoint(
    delegated: CaveatsView,
    mechanism: ConfinementMechanism,
    floor: FloorView,
    projection: ProjectionView,
)
    requires
        fence_refusal(delegated, mechanism, floor, projection) is None,
    ensures
        disjoint_closure(projection.runtime_closure),
        forall|axis: crate::report::ConfinedAxis| #[trigger]
            projection.resolved.on(axis).within(
                AuthorityView::of_caveats(delegated).on(axis).union(
                    projection.runtime_closure.on(axis),
                ),
            ),
        first_shortfall(delegated, report_of(delegated, mechanism), floor) is None,
{
    crate::provenance::law_admitted_iff_within_the_bound_on_every_axis(
        projection.resolved,
        delegated,
        projection.runtime_closure,
    );
}

/// The applied caveats are the grant plus exactly the declared programs: on
/// every other axis they are the grant, and an unrestricted exec axis takes no
/// entries.
pub proof fn law_applied_caveats_are_the_grant_plus_the_closure(
    delegated: CaveatsView,
    closure: Set<Seq<char>>,
    program: Seq<char>,
)
    ensures
        mechanism_authority(delegated, closure).exec.allows(program) <==> delegated.exec.allows(
            program,
        ) || closure.contains(program) && delegated.exec is Only,
        delegated.exec is All ==> mechanism_authority(delegated, closure) == delegated,
        closure == Set::<Seq<char>>::empty() ==> mechanism_authority(delegated, closure)
            == delegated,
        delegated.leq(mechanism_authority(delegated, closure)),
{
    if closure == Set::<Seq<char>>::empty() {
        if let ScopeView::Only(programs) = delegated.exec {
            assert(programs.union(closure) =~= programs);
        }
    }
}

} // verus!
