//! Admission of one named root: the exact program at the root of a process
//! tree, with its descendants disclosed as unbounded.

use vstd::prelude::*;
use vstd::string::*;

use crate::admitted::protected_roots::{
    canonical_of, canonicalize_protected_roots, check_closure_inventory, inventory_refusal,
    located_inventory, locations,
};
use crate::admitted::{AdmittedFence, AdmittedFenceId, BackendProjection, ProjectionView};
use crate::caveats::{Caveats, CaveatsView, Scope, ScopeView};
use crate::context::ResolvedRoot;
use crate::error::{ToolError, ToolResult};
use crate::paths::{has_parent_component, is_absolute};
use crate::paths::{path_has_parent_component, path_is_absolute};
use crate::provenance::{relate, relation, within_bound, ResolvedScope, ResolvedView, ScopeRelation};
use crate::report::{
    first_shortfall, report_of, unenforceable_axis, AxisEnforcement, ConfinementMechanism,
    EnforcementFloor, FloorView,
};
use crate::sandbox::{ExecBoundary, SandboxKind};
use crate::sets::OrderedSet;
use crate::text::str_equal;

verus! {

/// What was admitted for a named root.
#[derive(Debug, PartialEq, Eq)]
pub struct AdmittedFenceBody {
    /// The authority received from a gate.
    pub effective: Caveats,
    /// The caveats passed to the native mechanism.
    pub mechanism_caveats: Caveats,
    /// The absolute path of the root program.
    pub root: String,
    /// The mechanism, with its explicit exec boundary.
    pub mechanism: ConfinementMechanism,
    /// What the backend installs.
    pub projection: BackendProjection,
    /// The located inventory that the closure was checked against.
    pub protected_roots: OrderedSet<String>,
}

/// The model of [`AdmittedFenceBody`].
pub ghost struct BodyView {
    pub effective: CaveatsView,
    pub mechanism_caveats: CaveatsView,
    pub root: Seq<char>,
    pub mechanism: ConfinementMechanism,
    pub projection: ProjectionView,
    pub protected_roots: Set<Seq<char>>,
}

impl View for AdmittedFenceBody {
    type V = BodyView;

    open spec fn view(&self) -> BodyView {
        BodyView {
            effective: self.effective@,
            mechanism_caveats: self.mechanism_caveats@,
            root: self.root@,
            mechanism: self.mechanism,
            projection: self.projection@,
            protected_roots: self.protected_roots@,
        }
    }
}

/// An admitted body with its identity.
#[derive(Debug, PartialEq, Eq)]
pub struct NamedRootSeal {
    /// The identity of the fence.
    pub fence_id: AdmittedFenceId,
    /// What was admitted.
    pub body: AdmittedFenceBody,
}

/// The text of the content id that `content_addressable` gives to canonical
/// bytes.
pub uninterp spec fn content_address(canonical: Seq<u8>) -> Seq<char>;

/// The text of `content_addressable::ContentId::from_canonical_bytes`: a
/// function of the bytes alone.
#[verifier::external_body]
fn address_of(canonical: &Vec<u8>) -> (r: String)
    ensures
        r@ == content_address(canonical@),
{
    content_addressable::ContentId::from_canonical_bytes(canonical).to_string()
}

/// The identity of a body from its canonical encoding, or the refusal of one
/// that has no encoding.
pub fn fence_id_of(canonical: Result<Vec<u8>, String>) -> (r: ToolResult<AdmittedFenceId>)
    ensures
        match canonical {
            Ok(bytes) => r matches Ok(id) && id.cid@ == content_address(bytes@),
            Err(cause) => r is Err && r->Err_0.is_denial(
                "cannot content-address the named-root fence: "@ + cause@,
            ),
        },
{
    match canonical {
        Ok(bytes) => Ok(AdmittedFenceId { cid: address_of(&bytes) }),
        Err(cause) => Err(
            ToolError::denied(
                "cannot content-address the named-root fence: ".to_owned().concat(cause.as_str()),
            ),
        ),
    }
}

/// The floor of a confined executor.
pub open spec fn confined_floor() -> FloorView {
    FloorView::pinned(AxisEnforcement::Interceptor, AxisEnforcement::Kernel)
}

/// Why one inherited axis is refused, if it is: what the backend installs does
/// not stay within the grant and the closure.
pub open spec fn inheritance_refusal(
    axis: Seq<char>,
    resolved: ResolvedView,
    granted: ScopeView<Seq<char>>,
    closure: ResolvedView,
) -> Option<Seq<char>> {
    let how = relation(resolved, ResolvedView::of_scope(granted).union(closure));
    if within_bound(how) {
        None
    } else {
        Some(
            "named-root "@ + axis + " authority refuses: "@ + how.name_text()
                + " (widening or unknown scope cannot inherit)"@,
        )
    }
}

/// Why a named root is refused, if it is.
pub open spec fn named_root_refusal(
    delegated: CaveatsView,
    root: Seq<char>,
    protected_roots: Set<Seq<char>>,
    known: Seq<ResolvedRoot>,
    mechanism: ConfinementMechanism,
    projection: ProjectionView,
    floor: FloorView,
) -> Option<Seq<char>> {
    let closure = projection.runtime_closure;
    let resolved = projection.resolved;
    let inventory = inventory_refusal(closure, protected_roots, delegated, known);
    let read = inheritance_refusal(
        "fs_read"@,
        resolved.fs_read,
        delegated.fs_read,
        closure.fs_read,
    );
    let write = inheritance_refusal(
        "fs_write"@,
        resolved.fs_write,
        delegated.fs_write,
        closure.fs_write,
    );
    let net = inheritance_refusal("net"@, resolved.net, delegated.net, closure.net);
    let strength = first_shortfall(
        delegated,
        report_of(delegated, mechanism),
        floor.join(confined_floor()),
    );
    if !is_absolute(root) || has_parent_component(root) || !(delegated.exec matches ScopeView::Only(
        roots,
    ) && roots.contains(root)) {
        Some(
            "named-root admission requires an exact absolute root in the effective exec Only grant, without parent traversal"@,
        )
    } else if mechanism.spec_exec_boundary() != ExecBoundary::NamedRoot || mechanism.spec_kind()
        != SandboxKind::Landlock {
        Some("named-root admission requires its explicit supported native mechanism"@)
    } else if inventory is Some {
        inventory
    } else if resolved.exec != ResolvedView::Unbounded {
        Some(
            "named-root descendant exec projection must be explicitly Unbounded; bounded or unknown evidence refuses"@,
        )
    } else if read is Some {
        read
    } else if write is Some {
        write
    } else if net is Some {
        net
    } else {
        match strength {
            Some(unmet) => Some("named-root admission refuses: "@ + unmet.message_text()),
            None => None,
        }
    }
}

fn check_inheritance(
    axis: &str,
    resolved: &ResolvedScope,
    granted: &Scope<String>,
    closure: &ResolvedScope,
) -> (r: ToolResult<()>)
    ensures
        match inheritance_refusal(axis@, resolved@, granted@, closure@) {
            None => r is Ok,
            Some(reason) => r is Err && r->Err_0.is_denial(reason),
        },
{
    let how: ScopeRelation = relate(resolved, &ResolvedScope::from_scope(granted).union(closure));
    if how.stays_within() {
        Ok(())
    } else {
        Err(
            ToolError::denied(
                "named-root ".to_owned().concat(axis).concat(" authority refuses: ").concat(
                    how.name(),
                ).concat(" (widening or unknown scope cannot inherit)"),
            ),
        )
    }
}

/// Validate a named root: the root is granted by its exact absolute path, the
/// mechanism is the explicit one, the closure passes the inventory, the
/// descendants are disclosed as unbounded, no inherited axis is widened, and
/// every restricted axis is strong enough for a confined executor.
pub fn validate_named_root(
    delegated: &Caveats,
    root: &str,
    protected_roots: &OrderedSet<String>,
    known: &Vec<ResolvedRoot>,
    mechanism: ConfinementMechanism,
    projection: &BackendProjection,
    floor: EnforcementFloor,
) -> (r: ToolResult<()>)
    ensures
        match named_root_refusal(
            delegated@,
            root@,
            protected_roots@,
            known@,
            mechanism,
            projection@,
            floor@,
        ) {
            None => r is Ok,
            Some(reason) => r is Err && r->Err_0.is_denial(reason),
        },
{
    let granted: bool = match &delegated.exec {
        Scope::Only(roots) => roots.contains(&root.to_owned()),
        Scope::All => false,
    };
    if !path_is_absolute(root) || path_has_parent_component(root) || !granted {
        return Err(
            ToolError::denied(
                "named-root admission requires an exact absolute root in the effective exec Only grant, without parent traversal".to_owned(),
            ),
        );
    }
    if mechanism.exec_boundary() != ExecBoundary::NamedRoot || mechanism.kind()
        != SandboxKind::Landlock {
        return Err(
            ToolError::denied(
                "named-root admission requires its explicit supported native mechanism".to_owned(),
            ),
        );
    }
    if let Err(e) = check_closure_inventory(projection, protected_roots, delegated, known) {
        return Err(e);
    }
    if !projection.resolved.exec.same(&ResolvedScope::Unbounded) {
        return Err(
            ToolError::denied(
                "named-root descendant exec projection must be explicitly Unbounded; bounded or unknown evidence refuses".to_owned(),
            ),
        );
    }
    if let Err(e) = check_inheritance(
        "fs_read",
        &projection.resolved.fs_read,
        &delegated.fs_read,
        &projection.runtime_closure.fs_read,
    ) {
        return Err(e);
    }
    if let Err(e) = check_inheritance(
        "fs_write",
        &projection.resolved.fs_write,
        &delegated.fs_write,
        &projection.runtime_closure.fs_write,
    ) {
        return Err(e);
    }
    if let Err(e) = check_inheritance(
        "net",
        &projection.resolved.net,
        &delegated.net,
        &projection.runtime_closure.net,
    ) {
        return Err(e);
    }
    if let Some(unmet) = unenforceable_axis(
        delegated,
        mechanism,
        floor.join(EnforcementFloor::confined()),
    ) {
        return Err(
            ToolError::denied(
                "named-root admission refuses: ".to_owned().concat(unmet.message().as_str()),
            ),
        );
    }
    Ok(())
}

/// The refusal of evidence for another invocation.
pub open spec fn mismatch_refusal() -> Seq<char> {
    "named-root evidence does not match the invocation root and effective authority"@
}

/// Why a body is refused as evidence for an invocation, if it is: it names
/// another root, another authority or another inventory, or it would not be
/// admitted.
pub open spec fn body_refusal(
    body: BodyView,
    expected_root: Seq<char>,
    effective: CaveatsView,
    expected_protected_roots: Set<Seq<char>>,
    known: Seq<ResolvedRoot>,
) -> Option<Seq<char>> {
    if body.root != expected_root || body.effective != effective || body.mechanism_caveats
        != body.effective {
        Some(mismatch_refusal())
    } else {
        match located_inventory(expected_protected_roots, known) {
            Err(reason) => Some(reason),
            Ok(inventory) => if body.protected_roots != inventory {
                Some(mismatch_refusal())
            } else {
                named_root_refusal(
                    effective,
                    body.root,
                    body.protected_roots,
                    known,
                    body.mechanism,
                    body.projection,
                    confined_floor(),
                )
            },
        }
    }
}

fn mismatch() -> (r: ToolError)
    ensures
        r.is_denial(mismatch_refusal()),
{
    ToolError::denied(
        "named-root evidence does not match the invocation root and effective authority".to_owned(),
    )
}

impl AdmittedFenceBody {
    /// Whether both bodies say the same.
    pub fn same(&self, other: &Self) -> (r: bool)
        ensures
            r == (self@ == other@),
    {
        self.effective.same(&other.effective) && self.mechanism_caveats.same(
            &other.mechanism_caveats,
        ) && str_equal(self.root.as_str(), other.root.as_str()) && self.mechanism == other.mechanism
            && self.projection.resolved.same(&other.projection.resolved)
            && self.projection.runtime_closure.same(&other.projection.runtime_closure)
            && self.protected_roots.same(&other.protected_roots)
    }

    /// The identity of the fence from the canonical encoding of this body,
    /// which `encode` gives.
    pub fn fence_id<F: FnOnce(&AdmittedFenceBody) -> Result<Vec<u8>, String>>(
        &self,
        encode: F,
    ) -> (r: ToolResult<AdmittedFenceId>)
        requires
            encode.requires((self,)),
        ensures
            exists|canonical: Result<Vec<u8>, String>| #[trigger]
                encode.ensures((self,), canonical) && (match canonical {
                    Ok(bytes) => r matches Ok(id) && id.cid@ == content_address(bytes@),
                    Err(cause) => r is Err && r->Err_0.is_denial(
                        "cannot content-address the named-root fence: "@ + cause@,
                    ),
                }),
    {
        let canonical: Result<Vec<u8>, String> = encode(self);
        fence_id_of(canonical)
    }

    /// Verify that this body is the evidence for an invocation with this root,
    /// authority and inventory.
    pub fn verify(
        &self,
        expected_root: &str,
        effective: &Caveats,
        expected_protected_roots: &OrderedSet<String>,
        known: &Vec<ResolvedRoot>,
    ) -> (r: ToolResult<()>)
        ensures
            match body_refusal(
                self@,
                expected_root@,
                effective@,
                expected_protected_roots@,
                known@,
            ) {
                None => r is Ok,
                Some(reason) => r is Err && r->Err_0.is_denial(reason),
            },
    {
        if !str_equal(self.root.as_str(), expected_root) || !self.effective.same(effective)
            || !self.mechanism_caveats.same(&self.effective) {
            return Err(mismatch());
        }
        match canonicalize_protected_roots(expected_protected_roots, known) {
            Err(e) => {
                return Err(e);
            },
            Ok(inventory) => {
                if !self.protected_roots.same(&inventory) {
                    return Err(mismatch());
                }
            },
        }
        validate_named_root(
            effective,
            self.root.as_str(),
            &self.protected_roots,
            known,
            self.mechanism,
            &self.projection,
            EnforcementFloor::confined(),
        )
    }
}

/// The body that is admitted for a root.
pub open spec fn candidate_body(
    delegated: CaveatsView,
    root: Seq<char>,
    inventory: Set<Seq<char>>,
    mechanism: ConfinementMechanism,
    projection: ProjectionView,
) -> BodyView {
    BodyView {
        effective: delegated,
        mechanism_caveats: delegated,
        root,
        mechanism,
        projection,
        protected_roots: inventory,
    }
}

/// The candidate was given the identity of its canonical encoding and sealed in
/// a fence, or refused because it has no encoding.
pub open spec fn is_sealed<F: FnOnce(&AdmittedFenceBody) -> Result<Vec<u8>, String>>(
    encode: F,
    candidate: BodyView,
    r: ToolResult<AdmittedFence>,
) -> bool {
    exists|body: &AdmittedFenceBody, canonical: Result<Vec<u8>, String>| #[trigger]
        encode.ensures((body,), canonical) && body@ == candidate && (match canonical {
            Err(cause) => r is Err && r->Err_0.is_denial(
                "cannot content-address the named-root fence: "@ + cause@,
            ),
            Ok(bytes) => r matches Ok(fence) && fence.spec_mechanism() == candidate.mechanism
                && fence.spec_caveats() == candidate.mechanism_caveats && (fence.spec_named_root()
                matches Some(seal) && seal.body@ == candidate && seal.fence_id.cid@
                == content_address(bytes@)),
        })
}

/// The body of what a launch applies under an admitted body.
pub open spec fn applied_body(
    admitted: BodyView,
    applied: CaveatsView,
    root: Seq<char>,
    inventory: Set<Seq<char>>,
    mechanism: ConfinementMechanism,
    projection: ProjectionView,
) -> BodyView {
    BodyView {
        effective: admitted.effective,
        mechanism_caveats: applied,
        root,
        mechanism,
        projection,
        protected_roots: inventory,
    }
}

/// What an encoder gave, as plain values.
pub open spec fn encoded(canonical: Result<Vec<u8>, String>) -> Result<Seq<u8>, Seq<char>> {
    match canonical {
        Ok(bytes) => Ok(bytes@),
        Err(cause) => Err(cause@),
    }
}

/// Why a launch is refused under an admitted body, if it is: what it applies is
/// no evidence for the admitted invocation, or has no encoding, or has another
/// identity than what was admitted.
pub open spec fn application_refusal(
    admitted: BodyView,
    admitted_id: Seq<char>,
    actual: BodyView,
    known: Seq<ResolvedRoot>,
    canonical: Result<Seq<u8>, Seq<char>>,
) -> Option<Seq<char>> {
    match body_refusal(
        actual,
        admitted.root,
        admitted.effective,
        admitted.protected_roots,
        known,
    ) {
        Some(reason) => Some(reason),
        None => match canonical {
            Err(cause) => Some("cannot content-address the named-root fence: "@ + cause),
            Ok(bytes) => if content_address(bytes) == admitted_id {
                None
            } else {
                Some("actual named-root application differs from the admitted fence CID"@)
            },
        },
    }
}

/// What the verification of a launch under a fence comes to.
pub open spec fn is_application<F: FnOnce(&AdmittedFenceBody) -> Result<Vec<u8>, String>>(
    fence: AdmittedFence,
    applied: CaveatsView,
    root: Seq<char>,
    roots: Set<Seq<char>>,
    known: Seq<ResolvedRoot>,
    mechanism: ConfinementMechanism,
    projection: ProjectionView,
    encode: F,
    r: ToolResult<()>,
) -> bool {
    match fence.spec_named_root() {
        None => r is Err && r->Err_0.is_denial(
            "ordinary fence cannot verify a named-root application"@,
        ),
        Some(seal) => match located_inventory(roots, known) {
            Err(reason) => r is Err && r->Err_0.is_denial(reason),
            Ok(inventory) => {
                let actual = applied_body(
                    seal.body@,
                    applied,
                    root,
                    inventory,
                    mechanism,
                    projection,
                );
                match body_refusal(
                    actual,
                    seal.body@.root,
                    seal.body@.effective,
                    seal.body@.protected_roots,
                    known,
                ) {
                    Some(reason) => r is Err && r->Err_0.is_denial(reason),
                    None => exists|body: &AdmittedFenceBody, canonical: Result<Vec<u8>, String>|
                        #[trigger]
                        encode.ensures((body,), canonical) && body@ == actual && (
                        match application_refusal(
                            seal.body@,
                            seal.fence_id.cid@,
                            actual,
                            known,
                            encoded(canonical),
                        ) {
                            Some(reason) => r is Err && r->Err_0.is_denial(reason),
                            None => r is Ok,
                        }),
                }
            },
        },
    }
}

/// What the admission of a named root comes to, for a backend that installs
/// `projection`.
pub open spec fn is_admission<F: FnOnce(&AdmittedFenceBody) -> Result<Vec<u8>, String>>(
    delegated: CaveatsView,
    root: Seq<char>,
    roots: Set<Seq<char>>,
    known: Seq<ResolvedRoot>,
    mechanism: ConfinementMechanism,
    floor: FloorView,
    projection: ProjectionView,
    encode: F,
    r: ToolResult<AdmittedFence>,
) -> bool {
    match located_inventory(roots, known) {
        Err(reason) => r is Err && r->Err_0.is_denial(reason),
        Ok(inventory) => match named_root_refusal(
            delegated,
            root,
            inventory,
            known,
            mechanism,
            projection,
            floor,
        ) {
            Some(reason) => r is Err && r->Err_0.is_denial(reason),
            None => is_sealed(
                encode,
                candidate_body(delegated, root, inventory, mechanism, projection),
                r,
            ),
        },
    }
}

impl AdmittedFence {
    /// Seal an exact root whose inventory is located, for a backend that installs
    /// `projection`.
    fn seal_named_root<F: FnOnce(&AdmittedFenceBody) -> Result<Vec<u8>, String>>(
        delegated: &Caveats,
        root: &str,
        inventory: OrderedSet<String>,
        known: &Vec<ResolvedRoot>,
        mechanism: ConfinementMechanism,
        floor: EnforcementFloor,
        projection: BackendProjection,
        encode: F,
    ) -> (r: ToolResult<Self>)
        requires
            forall|body: &AdmittedFenceBody| #[trigger] encode.requires((body,)),
        ensures
            match named_root_refusal(
                delegated@,
                root@,
                inventory@,
                known@,
                mechanism,
                projection@,
                floor@,
            ) {
                Some(reason) => r is Err && r->Err_0.is_denial(reason),
                None => is_sealed(
                    encode,
                    candidate_body(delegated@, root@, inventory@, mechanism, projection@),
                    r,
                ),
            },
    {
        if let Err(e) = validate_named_root(
            delegated,
            root,
            &inventory,
            known,
            mechanism,
            &projection,
            floor,
        ) {
            return Err(e);
        }
        let body: AdmittedFenceBody = AdmittedFenceBody {
            effective: delegated.clone(),
            mechanism_caveats: delegated.clone(),
            root: root.to_owned(),
            mechanism,
            projection,
            protected_roots: inventory,
        };
        match body.fence_id(encode) {
            Err(e) => Err(e),
            Ok(fence_id) => Ok(
                AdmittedFence {
                    mechanism,
                    mechanism_caveats: delegated.clone(),
                    named_root: Some(NamedRootSeal { fence_id, body }),
                },
            ),
        }
    }

    /// Admit an exact root with a separately disclosed descendant domain, for a
    /// backend that installs `projection`. `encode` gives the canonical encoding
    /// of what is admitted.
    pub fn named_root_from_projection<F: FnOnce(&AdmittedFenceBody) -> Result<Vec<u8>, String>>(
        delegated: &Caveats,
        root: &str,
        protected_roots: &OrderedSet<String>,
        known: &Vec<ResolvedRoot>,
        mechanism: ConfinementMechanism,
        floor: EnforcementFloor,
        projection: BackendProjection,
        encode: F,
    ) -> (r: ToolResult<Self>)
        requires
            forall|body: &AdmittedFenceBody| #[trigger] encode.requires((body,)),
        ensures
            is_admission(
                delegated@,
                root@,
                protected_roots@,
                known@,
                mechanism,
                floor@,
                projection@,
                encode,
                r,
            ),
    {
        match canonicalize_protected_roots(protected_roots, known) {
            Err(e) => Err(e),
            Ok(inventory) => Self::seal_named_root(
                delegated,
                root,
                inventory,
                known,
                mechanism,
                floor,
                projection,
                encode,
            ),
        }
    }

    /// Admit an exact root with a separately disclosed descendant domain. Where
    /// the inventory has a location, ask the backend through `project` what it
    /// installs for the grant, and check it as
    /// [`AdmittedFence::named_root_from_projection`] does.
    pub fn admit_named_root<
        P: FnOnce(&Caveats) -> BackendProjection,
        F: FnOnce(&AdmittedFenceBody) -> Result<Vec<u8>, String>,
    >(
        delegated: &Caveats,
        root: &str,
        protected_roots: &OrderedSet<String>,
        known: &Vec<ResolvedRoot>,
        mechanism: ConfinementMechanism,
        floor: EnforcementFloor,
        project: P,
        encode: F,
    ) -> (r: ToolResult<Self>)
        requires
            project.requires((delegated,)),
            forall|body: &AdmittedFenceBody| #[trigger] encode.requires((body,)),
        ensures
            match located_inventory(protected_roots@, known@) {
                Err(reason) => r is Err && r->Err_0.is_denial(reason),
                Ok(_) => exists|projection: BackendProjection| #[trigger]
                    project.ensures((delegated,), projection) && is_admission(
                        delegated@,
                        root@,
                        protected_roots@,
                        known@,
                        mechanism,
                        floor@,
                        projection@,
                        encode,
                        r,
                    ),
            },
    {
        match canonicalize_protected_roots(protected_roots, known) {
            Err(e) => Err(e),
            Ok(inventory) => {
                let projection: BackendProjection = project(delegated);
                Self::seal_named_root(
                    delegated,
                    root,
                    inventory,
                    known,
                    mechanism,
                    floor,
                    projection,
                    encode,
                )
            },
        }
    }

    /// The identity of an admitted named root.
    pub fn fence_id(&self) -> (r: Option<&AdmittedFenceId>)
        ensures
            match self.spec_named_root() {
                None => r is None,
                Some(seal) => r is Some && *r->0 == seal.fence_id,
            },
    {
        match &self.named_root {
            None => None,
            Some(seal) => Some(&seal.fence_id),
        }
    }

    /// Verify that a launch applies what was admitted: the actual root and the
    /// freshly derived projection give a body that is evidence for the
    /// admitted invocation and has the admitted identity.
    pub fn verify_named_root_applied<F: FnOnce(&AdmittedFenceBody) -> Result<Vec<u8>, String>>(
        &self,
        applied: &Caveats,
        actual_launch_root: &str,
        protected_roots: &OrderedSet<String>,
        known: &Vec<ResolvedRoot>,
        mechanism: ConfinementMechanism,
        fresh_projection: BackendProjection,
        encode: F,
    ) -> (r: ToolResult<()>)
        requires
            forall|body: &AdmittedFenceBody| #[trigger] encode.requires((body,)),
        ensures
            is_application(
                *self,
                applied@,
                actual_launch_root@,
                protected_roots@,
                known@,
                mechanism,
                fresh_projection@,
                encode,
                r,
            ),
    {
        let seal: &NamedRootSeal = match &self.named_root {
            None => {
                return Err(
                    ToolError::denied(
                        "ordinary fence cannot verify a named-root application".to_owned(),
                    ),
                );
            },
            Some(seal) => seal,
        };
        let inventory: OrderedSet<String> = match canonicalize_protected_roots(
            protected_roots,
            known,
        ) {
            Ok(inventory) => inventory,
            Err(e) => {
                return Err(e);
            },
        };
        let actual: AdmittedFenceBody = AdmittedFenceBody {
            effective: seal.body.effective.clone(),
            mechanism_caveats: applied.clone(),
            root: actual_launch_root.to_owned(),
            mechanism,
            projection: fresh_projection,
            protected_roots: inventory,
        };
        if let Err(e) = actual.verify(
            seal.body.root.as_str(),
            &seal.body.effective,
            &seal.body.protected_roots,
            known,
        ) {
            return Err(e);
        }
        match actual.fence_id(encode) {
            Err(e) => Err(e),
            Ok(id) => {
                if str_equal(id.cid.as_str(), seal.fence_id.cid.as_str()) {
                    Ok(())
                } else {
                    Err(
                        ToolError::denied(
                            "actual named-root application differs from the admitted fence CID".to_owned(),
                        ),
                    )
                }
            },
        }
    }
}

/// A named root is admitted only under a floor at least as strong as that of a
/// confined executor, with its descendants disclosed as unbounded, and no
/// inherited axis exceeds the grant and the closure.
pub proof fn law_an_admitted_root_is_exact_and_confined(
    delegated: CaveatsView,
    root: Seq<char>,
    inventory: Set<Seq<char>>,
    known: Seq<ResolvedRoot>,
    mechanism: ConfinementMechanism,
    projection: ProjectionView,
    floor: FloorView,
)
    requires
        named_root_refusal(delegated, root, inventory, known, mechanism, projection, floor) is None,
    ensures
        delegated.exec.allows(root),
        delegated.exec is Only,
        is_absolute(root) && !has_parent_component(root),
        projection.resolved.exec is Unbounded,
        projection.resolved.fs_read.within(
            ResolvedView::of_scope(delegated.fs_read).union(projection.runtime_closure.fs_read),
        ),
        projection.resolved.fs_write.within(
            ResolvedView::of_scope(delegated.fs_write).union(projection.runtime_closure.fs_write),
        ),
        projection.resolved.net.within(
            ResolvedView::of_scope(delegated.net).union(projection.runtime_closure.net),
        ),
        first_shortfall(delegated, report_of(delegated, mechanism), confined_floor()) is None,
{
    crate::provenance::law_relation_is_containment(
        projection.resolved.fs_read,
        ResolvedView::of_scope(delegated.fs_read).union(projection.runtime_closure.fs_read),
    );
    crate::provenance::law_relation_is_containment(
        projection.resolved.fs_write,
        ResolvedView::of_scope(delegated.fs_write).union(projection.runtime_closure.fs_write),
    );
    crate::provenance::law_relation_is_containment(
        projection.resolved.net,
        ResolvedView::of_scope(delegated.net).union(projection.runtime_closure.net),
    );
    crate::report::law_raising_a_floor_only_refuses_more(
        delegated,
        report_of(delegated, mechanism),
        confined_floor(),
        floor.join(confined_floor()),
    );
}

/// The host locates each of the roots where it is.
pub open spec fn stays_put(roots: Set<Seq<char>>, known: Seq<ResolvedRoot>) -> bool {
    forall|root: Seq<char>| #[trigger]
        roots.contains(root) ==> canonical_of(root, known) == Some(root)
}

proof fn lemma_located_again(roots: Set<Seq<char>>, known: Seq<ResolvedRoot>)
    requires
        roots != Set::<Seq<char>>::empty(),
        stays_put(roots, known),
    ensures
        located_inventory(roots, known) == Ok::<Set<Seq<char>>, Seq<char>>(roots),
{
    assert(locations(roots, known) =~= roots) by {
        assert forall|x: Seq<char>| roots.contains(x) implies locations(roots, known).contains(
            x,
        ) by {
            assert(canonical_of(x, known) == Some(x));
        }
    }
}

proof fn lemma_some_location(roots: Set<Seq<char>>, known: Seq<ResolvedRoot>)
    requires
        located_inventory(roots, known) is Ok,
    ensures
        located_inventory(roots, known)->Ok_0 != Set::<Seq<char>>::empty(),
{
    if forall|x: Seq<char>| !roots.contains(x) {
        assert(roots =~= Set::<Seq<char>>::empty());
    }
    let x = choose|x: Seq<char>| roots.contains(x);
    let c = canonical_of(x, known)->0;
    assert(canonical_of(x, known) == Some(c));
    assert(locations(roots, known).contains(c));
}

/// The encoder gives each body the canonical encoding of what it says.
pub open spec fn encodes<F: FnOnce(&AdmittedFenceBody) -> Result<Vec<u8>, String>>(
    encode: F,
    canonical: spec_fn(BodyView) -> Result<Seq<u8>, Seq<char>>,
) -> bool {
    forall|body: &AdmittedFenceBody, given: Result<Vec<u8>, String>| #[trigger]
        encode.ensures((body,), given) ==> encoded(given) == canonical(body@)
}

/// What a fence holds that was admitted for a named root.
proof fn lemma_sealed<F: FnOnce(&AdmittedFenceBody) -> Result<Vec<u8>, String>>(
    encode: F,
    canonical: spec_fn(BodyView) -> Result<Seq<u8>, Seq<char>>,
    candidate: BodyView,
    fence: AdmittedFence,
)
    requires
        encodes(encode, canonical),
        is_sealed(encode, candidate, Ok(fence)),
    ensures
        canonical(candidate) is Ok,
        fence.spec_named_root() matches Some(seal) && seal.body@ == candidate
            && seal.fence_id.cid@ == content_address(canonical(candidate)->Ok_0),
{
    let r: ToolResult<AdmittedFence> = Ok(fence);
    let (body, given) = choose|body: &AdmittedFenceBody, given: Result<Vec<u8>, String>|
        #[trigger]
        encode.ensures((body,), given) && body@ == candidate && (match given {
            Err(cause) => r is Err && r->Err_0.is_denial(
                "cannot content-address the named-root fence: "@ + cause@,
            ),
            Ok(bytes) => r matches Ok(fence) && fence.spec_mechanism() == candidate.mechanism
                && fence.spec_caveats() == candidate.mechanism_caveats && (fence.spec_named_root()
                matches Some(seal) && seal.body@ == candidate && seal.fence_id.cid@
                == content_address(bytes@)),
        });
    assert(encoded(given) == canonical(candidate));
}

/// A launch that applies what was admitted is accepted: the same caveats, root,
/// inventory, mechanism and projection, encoded in the same canonical way, on a
/// host that locates the inventory where it is.
pub proof fn law_what_was_admitted_is_accepted<
    F: FnOnce(&AdmittedFenceBody) -> Result<Vec<u8>, String>,
    G: FnOnce(&AdmittedFenceBody) -> Result<Vec<u8>, String>,
>(
    canonical: spec_fn(BodyView) -> Result<Seq<u8>, Seq<char>>,
    delegated: CaveatsView,
    root: Seq<char>,
    roots: Set<Seq<char>>,
    known: Seq<ResolvedRoot>,
    mechanism: ConfinementMechanism,
    floor: FloorView,
    projection: ProjectionView,
    encode: F,
    fence: AdmittedFence,
    encode_again: G,
    r: ToolResult<()>,
)
    requires
        encodes(encode, canonical),
        encodes(encode_again, canonical),
        is_admission(
            delegated,
            root,
            roots,
            known,
            mechanism,
            floor,
            projection,
            encode,
            Ok(fence),
        ),
        stays_put(located_inventory(roots, known)->Ok_0, known),
        is_application(
            fence,
            delegated,
            root,
            roots,
            known,
            mechanism,
            projection,
            encode_again,
            r,
        ),
    ensures
        r is Ok,
{
    let inventory = located_inventory(roots, known)->Ok_0;
    let admitted = candidate_body(delegated, root, inventory, mechanism, projection);
    lemma_sealed(encode, canonical, admitted, fence);
    lemma_some_location(roots, known);
    lemma_located_again(inventory, known);
    crate::report::law_raising_a_floor_only_refuses_more(
        delegated,
        report_of(delegated, mechanism),
        confined_floor().join(confined_floor()),
        floor.join(confined_floor()),
    );
    assert(applied_body(admitted, delegated, root, inventory, mechanism, projection) == admitted);
    assert(body_refusal(admitted, root, delegated, inventory, known) is None);
}

/// A launch that applies anything else than what was admitted is refused: other
/// caveats, another root, another inventory, another mechanism or another
/// projection. The first three are refused by what they are; the others by the
/// identity, so unless the encoding of the changed body has the content address
/// of the admitted one.
pub proof fn law_a_changed_application_is_refused<
    F: FnOnce(&AdmittedFenceBody) -> Result<Vec<u8>, String>,
    G: FnOnce(&AdmittedFenceBody) -> Result<Vec<u8>, String>,
>(
    canonical: spec_fn(BodyView) -> Result<Seq<u8>, Seq<char>>,
    delegated: CaveatsView,
    root: Seq<char>,
    roots: Set<Seq<char>>,
    known: Seq<ResolvedRoot>,
    mechanism: ConfinementMechanism,
    floor: FloorView,
    projection: ProjectionView,
    encode: F,
    fence: AdmittedFence,
    applied: CaveatsView,
    actual_root: Seq<char>,
    actual_roots: Set<Seq<char>>,
    actual_mechanism: ConfinementMechanism,
    actual_projection: ProjectionView,
    encode_again: G,
    r: ToolResult<()>,
)
    requires
        encodes(encode, canonical),
        encodes(encode_again, canonical),
        is_admission(
            delegated,
            root,
            roots,
            known,
            mechanism,
            floor,
            projection,
            encode,
            Ok(fence),
        ),
        stays_put(located_inventory(roots, known)->Ok_0, known),
        is_application(
            fence,
            applied,
            actual_root,
            actual_roots,
            known,
            actual_mechanism,
            actual_projection,
            encode_again,
            r,
        ),
    ensures
        r is Err ==> r->Err_0 is Denied,
        applied != delegated ==> r is Err,
        actual_root != root ==> r is Err,
        located_inventory(actual_roots, known) != located_inventory(roots, known) ==> r is Err,
        ({
            let inventory = located_inventory(roots, known)->Ok_0;
            let admitted = candidate_body(delegated, root, inventory, mechanism, projection);
            let actual = candidate_body(
                delegated,
                root,
                inventory,
                actual_mechanism,
                actual_projection,
            );
            actual_mechanism != mechanism || actual_projection != projection ==> r is Err || (
            canonical(actual) is Ok && content_address(canonical(actual)->Ok_0) == content_address(
                canonical(admitted)->Ok_0,
            ))
        }),
{
    let inventory = located_inventory(roots, known)->Ok_0;
    let admitted = candidate_body(delegated, root, inventory, mechanism, projection);
    lemma_sealed(encode, canonical, admitted, fence);
    lemma_some_location(roots, known);
    lemma_located_again(inventory, known);
}

/// A fence that was not admitted for a named root verifies no application of
/// one.
pub proof fn law_an_ordinary_fence_verifies_no_root<
    F: FnOnce(&AdmittedFenceBody) -> Result<Vec<u8>, String>,
>(
    fence: AdmittedFence,
    applied: CaveatsView,
    root: Seq<char>,
    roots: Set<Seq<char>>,
    known: Seq<ResolvedRoot>,
    mechanism: ConfinementMechanism,
    projection: ProjectionView,
    encode: F,
    r: ToolResult<()>,
)
    requires
        fence.spec_named_root() is None,
        is_application(fence, applied, root, roots, known, mechanism, projection, encode, r),
    ensures
        r is Err && r->Err_0 is Denied,
{
}

} // verus!
