//! What durable policy decides, said over the entries of its files.

use vstd::prelude::*;
use vstd::utf8::encode_utf8;

use crate::bytes::hex_decoded;
use crate::policy::{
    approved, drop_notices, entry_refusal, rules_on, ApproveVerifier, CapabilityClass,
    Ed25519ApproveVerifier, ExecEntry, FsEntry, NetEntry, PolicyEntry, PolicyFile, PolicySet,
    Verdict, VerdictFiles,
};
use crate::policy::{key_refusal, signature_refusal};

verus! {

/// The file has an entry about exactly this target, in the list of its class.
pub open spec fn lists(file: PolicyFile, class: CapabilityClass, target: Seq<char>) -> bool {
    match class {
        CapabilityClass::Exec => exists|i: int|
            0 <= i < file.exec@.len() && (#[trigger] file.exec@[i]).target@ == target,
        CapabilityClass::Fs => exists|i: int|
            0 <= i < file.fs@.len() && (#[trigger] file.fs@[i]).path@ == target,
        CapabilityClass::Net => exists|i: int|
            0 <= i < file.net@.len() && (#[trigger] file.net@[i]).host@ == target,
    }
}

proof fn lemma_lists(file: PolicyFile, class: CapabilityClass, target: Seq<char>)
    ensures
        file.names(class, target) <==> lists(file, class, target),
{
    if file.names(class, target) {
        match class {
            CapabilityClass::Exec => {
                let i = choose|i: int|
                    0 <= i < file.exec@.len() && #[trigger] file.exec@[i].spec_subject() == target;
                assert(file.exec@[i].target@ == target);
            },
            CapabilityClass::Fs => {
                let i = choose|i: int|
                    0 <= i < file.fs@.len() && #[trigger] file.fs@[i].spec_subject() == target;
                assert(file.fs@[i].path@ == target);
            },
            CapabilityClass::Net => {
                let i = choose|i: int|
                    0 <= i < file.net@.len() && #[trigger] file.net@[i].spec_subject() == target;
                assert(file.net@[i].host@ == target);
            },
        }
    }
    if lists(file, class, target) {
        match class {
            CapabilityClass::Exec => {
                let i = choose|i: int|
                    0 <= i < file.exec@.len() && (#[trigger] file.exec@[i]).target@ == target;
                assert(file.exec@[i].spec_subject() == target);
            },
            CapabilityClass::Fs => {
                let i = choose|i: int|
                    0 <= i < file.fs@.len() && (#[trigger] file.fs@[i]).path@ == target;
                assert(file.fs@[i].spec_subject() == target);
            },
            CapabilityClass::Net => {
                let i = choose|i: int|
                    0 <= i < file.net@.len() && (#[trigger] file.net@[i]).host@ == target;
                assert(file.net@[i].spec_subject() == target);
            },
        }
    }
}

/// The file of this verdict is there and lists the target.
pub open spec fn says(
    files: Map<Verdict, PolicyFile>,
    verdict: Verdict,
    class: CapabilityClass,
    target: Seq<char>,
) -> bool {
    files.dom().contains(verdict) && lists(files[verdict], class, target)
}

/// A target is denied where the denials list it; failing that, it owes a passkey
/// where those entries list it; failing that, it is asked about; failing that,
/// it is approved; and nothing is decided of a target that no file lists. A
/// target is listed by its exact text, in the list of its own class.
pub proof fn law_a_denial_comes_first_and_an_approval_last(
    policy: &PolicySet,
    class: CapabilityClass,
    target: &str,
    r: Option<Verdict>,
)
    requires
        call_ensures(PolicySet::evaluate, (policy, class, target), r),
    ensures
        ({
            let files = policy.files@;
            r == (if says(files, Verdict::Deny, class, target@) {
                Some(Verdict::Deny)
            } else if says(files, Verdict::Passkey, class, target@) {
                Some(Verdict::Passkey)
            } else if says(files, Verdict::Ask, class, target@) {
                Some(Verdict::Ask)
            } else if says(files, Verdict::Approve, class, target@) {
                Some(Verdict::Approve)
            } else {
                None
            })
        }),
{
    let files = policy.files@;
    assert forall|v: Verdict| #[trigger] rules_on(files, v, class, target@) <==> says(
        files,
        v,
        class,
        target@,
    ) by {
        lemma_lists(files[v], class, target@);
    }
    assert(rules_on(files, Verdict::Deny, class, target@) == says(
        files,
        Verdict::Deny,
        class,
        target@,
    ));
    assert(rules_on(files, Verdict::Passkey, class, target@) == says(
        files,
        Verdict::Passkey,
        class,
        target@,
    ));
    assert(rules_on(files, Verdict::Ask, class, target@) == says(
        files,
        Verdict::Ask,
        class,
        target@,
    ));
    assert(rules_on(files, Verdict::Approve, class, target@) == says(
        files,
        Verdict::Approve,
        class,
        target@,
    ));
}

/// Each verdict has one file, the one that was put there last; putting one there
/// touches no other. A file has an entry about a target where it lists it.
pub proof fn law_each_verdict_has_one_file(
    files: &mut VerdictFiles,
    verdict: Verdict,
    file: PolicyFile,
    class: CapabilityClass,
    target: &str,
    r: bool,
)
    requires
        call_ensures(VerdictFiles::insert, (files, verdict, file), ()),
        call_ensures(PolicyFile::has_entry, (&file, class, target), r),
    ensures
        final(files)@.dom().contains(verdict) && final(files)@[verdict] == file,
        forall|v: Verdict|
            v != verdict ==> (#[trigger] final(files)@.dom().contains(v)
                <==> old(files)@.dom().contains(v)),
        forall|v: Verdict|
            v != verdict && old(files)@.dom().contains(v) ==> #[trigger] final(files)@[v]
                == old(files)@[v],
        r <==> lists(file, class, target@),
{
    lemma_lists(file, class, target@);
}

/// The precedence of the verdicts runs from denial to approval, and each has a
/// file name of its own.
pub proof fn law_verdicts_are_ordered_by_restriction(
    deny: u8,
    passkey: u8,
    ask: u8,
    approve: u8,
    v: Verdict,
    w: Verdict,
    v_name: &str,
    w_name: &str,
)
    requires
        call_ensures(Verdict::precedence, (Verdict::Deny,), deny),
        call_ensures(Verdict::precedence, (Verdict::Passkey,), passkey),
        call_ensures(Verdict::precedence, (Verdict::Ask,), ask),
        call_ensures(Verdict::precedence, (Verdict::Approve,), approve),
        call_ensures(Verdict::filename, (v,), v_name),
        call_ensures(Verdict::filename, (w,), w_name),
    ensures
        deny < passkey < ask < approve,
        v != w ==> v_name@ != w_name@,
{
    reveal_strlit("deny.toml");
    reveal_strlit("passkey.toml");
    reveal_strlit("ask.toml");
    reveal_strlit("approve.toml");
    if v != w {
        assert(v_name@.len() != w_name@.len() || v_name@[0] != w_name@[0]);
    }
}

/// The signature is there, is hexadecimal, and is accepted over the payload.
pub open spec fn is_accepted<V: ApproveVerifier>(
    verifier: V,
    payload: Seq<u8>,
    sig: Option<String>,
) -> bool {
    sig is Some && hex_decoded(encode_utf8(sig->0@)) is Ok && verifier.refusal(
        payload,
        hex_decoded(encode_utf8(sig->0@))->Ok_0,
    ) is None
}

proof fn lemma_approved<E: PolicyEntry, V: ApproveVerifier>(verifier: V, entries: Seq<E>)
    ensures
        approved(verifier, entries) == entries.filter(
            |e: E| entry_refusal(verifier, e) is None,
        ),
        approved(verifier, entries).len() + drop_notices(verifier, entries).len() == entries.len(),
    decreases entries.len(),
{
    reveal(Seq::filter);
    if entries.len() > 0 {
        lemma_approved(verifier, entries.drop_last());
    }
}

/// An approval is kept exactly where its signature is there, is hexadecimal, and
/// is accepted over the text of its class and its own target; for a path, the
/// text says whether writing is covered. What is kept stays in its order, and
/// there is one warning for each entry that is not kept.
pub proof fn law_an_approval_is_kept_where_its_signature_is_accepted<V: ApproveVerifier>(
    file: &PolicyFile,
    verifier: &V,
    r: (PolicyFile, Vec<String>),
)
    requires
        call_ensures(PolicyFile::verified_approves::<V>, (file, verifier), r),
    ensures
        forall|e: ExecEntry|
            #[trigger] r.0.exec@.contains(e) <==> file.exec@.contains(e) && is_accepted(
                *verifier,
                encode_utf8("agent-bridle:ocap-approve:v1"@ + "\nexec\n"@ + e.target@),
                e.sig,
            ),
        forall|e: FsEntry|
            #[trigger] r.0.fs@.contains(e) <==> file.fs@.contains(e) && is_accepted(
                *verifier,
                encode_utf8(
                    "agent-bridle:ocap-approve:v1"@ + "\nfs\n"@ + e.path@ + "\nwrite="@ + (
                    if e.write {
                        "true"@
                    } else {
                        "false"@
                    }),
                ),
                e.sig,
            ),
        forall|e: NetEntry|
            #[trigger] r.0.net@.contains(e) <==> file.net@.contains(e) && is_accepted(
                *verifier,
                encode_utf8("agent-bridle:ocap-approve:v1"@ + "\nnet\n"@ + e.host@),
                e.sig,
            ),
        r.0.exec@.len() + r.0.fs@.len() + r.0.net@.len() + r.1@.len() == file.exec@.len()
            + file.fs@.len() + file.net@.len(),
        exists|keep: spec_fn(ExecEntry) -> bool| r.0.exec@ == #[trigger] file.exec@.filter(keep),
        exists|keep: spec_fn(FsEntry) -> bool| r.0.fs@ == #[trigger] file.fs@.filter(keep),
        exists|keep: spec_fn(NetEntry) -> bool| r.0.net@ == #[trigger] file.net@.filter(keep),
{
    let v = *verifier;
    lemma_approved(v, file.exec@);
    lemma_approved(v, file.fs@);
    lemma_approved(v, file.net@);
    assert(crate::sets::views(r.1@).len() == r.1@.len());
    let on_exec = |e: ExecEntry| entry_refusal(v, e) is None;
    let on_fs = |e: FsEntry| entry_refusal(v, e) is None;
    let on_net = |e: NetEntry| entry_refusal(v, e) is None;
    assert(r.0.exec@ == file.exec@.filter(on_exec));
    assert(r.0.fs@ == file.fs@.filter(on_fs));
    assert(r.0.net@ == file.net@.filter(on_net));
    assert forall|e: ExecEntry| #[trigger] r.0.exec@.contains(e) <==> file.exec@.contains(e)
        && is_accepted(
        v,
        encode_utf8("agent-bridle:ocap-approve:v1"@ + "\nexec\n"@ + e.target@),
        e.sig,
    ) by {
        assert(on_exec(e) <==> is_accepted(
            v,
            encode_utf8("agent-bridle:ocap-approve:v1"@ + "\nexec\n"@ + e.target@),
            e.sig,
        ));
        lemma_kept(file.exec@, on_exec, e);
    }
    assert forall|e: FsEntry| #[trigger] r.0.fs@.contains(e) <==> file.fs@.contains(e)
        && is_accepted(
        v,
        encode_utf8(
            "agent-bridle:ocap-approve:v1"@ + "\nfs\n"@ + e.path@ + "\nwrite="@ + (if e.write {
                "true"@
            } else {
                "false"@
            }),
        ),
        e.sig,
    ) by {
        assert(on_fs(e) <==> is_accepted(v, crate::policy::fs_payload(e.path@, e.write), e.sig));
        lemma_kept(file.fs@, on_fs, e);
    }
    assert forall|e: NetEntry| #[trigger] r.0.net@.contains(e) <==> file.net@.contains(e)
        && is_accepted(
        v,
        encode_utf8("agent-bridle:ocap-approve:v1"@ + "\nnet\n"@ + e.host@),
        e.sig,
    ) by {
        assert(on_net(e) <==> is_accepted(v, crate::policy::net_payload(e.host@), e.sig));
        lemma_kept(file.net@, on_net, e);
    }
}

proof fn lemma_kept<E>(entries: Seq<E>, keep: spec_fn(E) -> bool, e: E)
    ensures
        entries.filter(keep).contains(e) <==> entries.contains(e) && keep(e),
    decreases entries.len(),
{
    reveal(Seq::filter);
    if entries.len() > 0 {
        let front = entries.drop_last();
        let last = entries.last();
        lemma_kept(front, keep, e);
        let kept = front.filter(keep);
        if keep(last) {
            assert(entries.filter(keep) == kept.push(last));
            assert(kept.push(last).contains(e) <==> kept.contains(e) || e == last) by {
                if kept.contains(e) {
                    let k = choose|k: int| 0 <= k < kept.len() && kept[k] == e;
                    assert(kept.push(last)[k] == e);
                }
                assert(kept.push(last)[kept.len() as int] == last);
            }
        }
        if front.contains(e) {
            let k = choose|k: int| 0 <= k < front.len() && front[k] == e;
            assert(entries[k] == e);
        }
        if entries.contains(e) && e != last {
            let k = choose|k: int| 0 <= k < entries.len() && entries[k] == e;
            assert(front[k] == e);
        }
        assert(entries[entries.len() - 1] == last);
    }
}

/// The signatures of one key are accepted where the key is one, the signature
/// has sixty-four bytes, and it is that of the key over the payload.
pub proof fn law_a_key_accepts_its_own_signatures(
    verifier: &Ed25519ApproveVerifier,
    payload: &[u8],
    sig: &[u8],
    r: Result<(), String>,
)
    requires
        call_ensures(Ed25519ApproveVerifier::verify, (verifier, payload, sig), r),
    ensures
        r is Ok <==> key_refusal(verifier.verifying_key@) is None && sig@.len() == 64
            && signature_refusal(verifier.verifying_key@, payload@, sig@) is None,
{
}

/// A target may be approved for good exactly where it is not judged to be
/// dangerous.
pub proof fn law_a_dangerous_target_is_never_approved_for_good<
    F: Fn(CapabilityClass, &str) -> bool,
>(class: CapabilityClass, target: &str, is_high_danger: F, r: Result<(), String>)
    requires
        call_ensures(PolicySet::validate_approve::<F>, (class, target, is_high_danger), r),
    ensures
        r is Ok ==> call_ensures(is_high_danger, (class, target), false),
        r is Err ==> call_ensures(is_high_danger, (class, target), true),
{
}

} // verus!
