//! Durable policy: what a human has decided once and for all about a target.
//!
//! Each verdict has a file of entries. Where several verdicts name a target,
//! the most restrictive one decides. Only an approval widens authority, so only
//! an approval has to be signed.

use vstd::prelude::*;
use vstd::string::*;
use vstd::utf8::encode_utf8;

pub mod laws;

use crate::bytes::{hex_decode, hex_decoded};
use crate::sets::views;
use crate::text::{lemma_utf8_injective, str_equal};

verus! {

/// The four durable verdicts, the most restrictive first.
#[derive(Debug, Clone, Copy, PartialEq, Eq, PartialOrd, Ord, Hash, Structural)]
pub enum Verdict {
    /// Never allowed.
    Deny,
    /// Allowed after a gesture with a passkey.
    Passkey,
    /// Always asked.
    Ask,
    /// Allowed without asking.
    Approve,
}

impl Verdict {
    /// Its place among the verdicts: a lower one is more restrictive.
    pub open spec fn place(self) -> u8 {
        match self {
            Verdict::Deny => 0,
            Verdict::Passkey => 1,
            Verdict::Ask => 2,
            Verdict::Approve => 3,
        }
    }

    /// Its place among the verdicts: a lower one is more restrictive, and wins.
    pub fn precedence(self) -> (r: u8)
        ensures
            r == self.place(),
    {
        match self {
            Verdict::Deny => 0,
            Verdict::Passkey => 1,
            Verdict::Ask => 2,
            Verdict::Approve => 3,
        }
    }

    /// The name of the file with the entries of this verdict.
    pub fn filename(self) -> (r: &'static str)
        ensures
            r@ == (match self {
                Verdict::Deny => "deny.toml"@,
                Verdict::Passkey => "passkey.toml"@,
                Verdict::Ask => "ask.toml"@,
                Verdict::Approve => "approve.toml"@,
            }),
    {
        match self {
            Verdict::Deny => "deny.toml",
            Verdict::Passkey => "passkey.toml",
            Verdict::Ask => "ask.toml",
            Verdict::Approve => "approve.toml",
        }
    }
}

/// The tag that sets the signatures of approvals apart from all others of the
/// same key.
pub const SIGNING_DOMAIN: &'static str = "agent-bridle:ocap-approve:v1";

/// The bytes that the signature of an approval to execute covers.
pub open spec fn exec_payload(target: Seq<char>) -> Seq<u8> {
    encode_utf8("agent-bridle:ocap-approve:v1"@ + "\nexec\n"@ + target)
}

/// The bytes that the signature of an approval of a path covers.
pub open spec fn fs_payload(path: Seq<char>, write: bool) -> Seq<u8> {
    encode_utf8(
        "agent-bridle:ocap-approve:v1"@ + "\nfs\n"@ + path + "\nwrite="@ + if write {
            "true"@
        } else {
            "false"@
        },
    )
}

/// The bytes that the signature of an approval of a host covers.
pub open spec fn net_payload(host: Seq<char>) -> Seq<u8> {
    encode_utf8("agent-bridle:ocap-approve:v1"@ + "\nnet\n"@ + host)
}

/// The text in an optional string.
pub open spec fn text_in(text: Option<String>) -> Option<Seq<char>> {
    match text {
        Some(s) => Some(s@),
        None => None,
    }
}

fn copy_text(text: &Option<String>) -> (r: Option<String>)
    ensures
        r == *text,
{
    match text {
        Some(s) => Some(s.clone()),
        None => None,
    }
}

fn bytes_of(text: &str) -> (r: Vec<u8>)
    ensures
        r@ == encode_utf8(text@),
{
    let mut r: Vec<u8> = Vec::new();
    crate::bytes::push_bytes(&mut r, text.as_bytes());
    assert(r@ =~= encode_utf8(text@));
    r
}

/// What all entries have in common: a target, the bytes that a signature of the
/// entry covers, and the signature, if there is one.
pub trait PolicyEntry: Sized {
    /// The target.
    spec fn spec_subject(self) -> Seq<char>;

    /// The bytes that a signature covers.
    spec fn spec_payload(self) -> Seq<u8>;

    /// The signature in hexadecimal.
    spec fn spec_signature(self) -> Option<Seq<char>>;

    /// The target.
    fn subject(&self) -> (r: &str)
        ensures
            r@ == self.spec_subject(),
    ;

    /// The bytes that a signature covers.
    fn payload(&self) -> (r: Vec<u8>)
        ensures
            r@ == self.spec_payload(),
    ;

    /// The signature in hexadecimal.
    fn signature(&self) -> (r: &Option<String>)
        ensures
            text_in(*r) == self.spec_signature(),
    ;

    /// The same entry once more.
    fn duplicate(&self) -> (r: Self)
        ensures
            r == *self,
    ;
}

/// An entry about a command.
#[derive(Debug, PartialEq)]
pub struct ExecEntry {
    /// The command: a base name or a path.
    pub target: String,
    /// A note for humans.
    pub note: Option<String>,
    /// When the decision was recorded.
    pub granted: Option<String>,
    /// Who recorded it.
    pub by: Option<String>,
    /// The signature over the payload, in hexadecimal.
    pub sig: Option<String>,
}

impl Default for ExecEntry {
    fn default() -> (r: Self)
        ensures
            r.target@ == Seq::<char>::empty(),
            r.note is None,
            r.granted is None,
            r.by is None,
            r.sig is None,
    {
        let target: String = String::new();
        assert(target@ =~= Seq::<char>::empty());
        ExecEntry { target, note: None, granted: None, by: None, sig: None }
    }
}

impl Clone for ExecEntry {
    fn clone(&self) -> (r: Self)
        ensures
            r == *self,
    {
        ExecEntry {
            target: self.target.clone(),
            note: copy_text(&self.note),
            granted: copy_text(&self.granted),
            by: copy_text(&self.by),
            sig: copy_text(&self.sig),
        }
    }
}

impl ExecEntry {
    /// The bytes that the signature of the entry covers: the domain, the class
    /// and the command. What is written for humans is left out.
    pub fn signing_payload(&self) -> (r: Vec<u8>)
        ensures
            r@ == exec_payload(self.target@),
    {
        bytes_of(
            SIGNING_DOMAIN.to_owned().concat("\nexec\n").concat(self.target.as_str()).as_str(),
        )
    }
}

impl PolicyEntry for ExecEntry {
    open spec fn spec_subject(self) -> Seq<char> {
        self.target@
    }

    open spec fn spec_payload(self) -> Seq<u8> {
        exec_payload(self.target@)
    }

    open spec fn spec_signature(self) -> Option<Seq<char>> {
        text_in(self.sig)
    }

    fn subject(&self) -> (r: &str) {
        self.target.as_str()
    }

    fn payload(&self) -> (r: Vec<u8>) {
        self.signing_payload()
    }

    fn signature(&self) -> (r: &Option<String>) {
        &self.sig
    }

    fn duplicate(&self) -> (r: Self) {
        self.clone()
    }
}

/// An entry about a path.
#[derive(Debug, PartialEq)]
pub struct FsEntry {
    /// The path.
    pub path: String,
    /// Whether writing is covered as well as reading.
    pub write: bool,
    /// A note for humans.
    pub note: Option<String>,
    /// When the decision was recorded.
    pub granted: Option<String>,
    /// Who recorded it.
    pub by: Option<String>,
    /// The signature over the payload, in hexadecimal.
    pub sig: Option<String>,
}

impl Default for FsEntry {
    fn default() -> (r: Self)
        ensures
            r.path@ == Seq::<char>::empty(),
            !r.write,
            r.note is None,
            r.granted is None,
            r.by is None,
            r.sig is None,
    {
        let path: String = String::new();
        assert(path@ =~= Seq::<char>::empty());
        FsEntry { path, write: false, note: None, granted: None, by: None, sig: None }
    }
}

impl Clone for FsEntry {
    fn clone(&self) -> (r: Self)
        ensures
            r == *self,
    {
        FsEntry {
            path: self.path.clone(),
            write: self.write,
            note: copy_text(&self.note),
            granted: copy_text(&self.granted),
            by: copy_text(&self.by),
            sig: copy_text(&self.sig),
        }
    }
}

impl FsEntry {
    /// The bytes that the signature of the entry covers: the domain, the class,
    /// the path, and whether writing is covered.
    pub fn signing_payload(&self) -> (r: Vec<u8>)
        ensures
            r@ == fs_payload(self.path@, self.write),
    {
        let write: &str = if self.write {
            "true"
        } else {
            "false"
        };
        bytes_of(
            SIGNING_DOMAIN.to_owned().concat("\nfs\n").concat(self.path.as_str()).concat(
                "\nwrite=",
            ).concat(write).as_str(),
        )
    }
}

impl PolicyEntry for FsEntry {
    open spec fn spec_subject(self) -> Seq<char> {
        self.path@
    }

    open spec fn spec_payload(self) -> Seq<u8> {
        fs_payload(self.path@, self.write)
    }

    open spec fn spec_signature(self) -> Option<Seq<char>> {
        text_in(self.sig)
    }

    fn subject(&self) -> (r: &str) {
        self.path.as_str()
    }

    fn payload(&self) -> (r: Vec<u8>) {
        self.signing_payload()
    }

    fn signature(&self) -> (r: &Option<String>) {
        &self.sig
    }

    fn duplicate(&self) -> (r: Self) {
        self.clone()
    }
}

/// An entry about a host.
#[derive(Debug, PartialEq)]
pub struct NetEntry {
    /// The host.
    pub host: String,
    /// A note for humans.
    pub note: Option<String>,
    /// When the decision was recorded.
    pub granted: Option<String>,
    /// Who recorded it.
    pub by: Option<String>,
    /// The signature over the payload, in hexadecimal.
    pub sig: Option<String>,
}

impl Default for NetEntry {
    fn default() -> (r: Self)
        ensures
            r.host@ == Seq::<char>::empty(),
            r.note is None,
            r.granted is None,
            r.by is None,
            r.sig is None,
    {
        let host: String = String::new();
        assert(host@ =~= Seq::<char>::empty());
        NetEntry { host, note: None, granted: None, by: None, sig: None }
    }
}

impl Clone for NetEntry {
    fn clone(&self) -> (r: Self)
        ensures
            r == *self,
    {
        NetEntry {
            host: self.host.clone(),
            note: copy_text(&self.note),
            granted: copy_text(&self.granted),
            by: copy_text(&self.by),
            sig: copy_text(&self.sig),
        }
    }
}

impl NetEntry {
    /// The bytes that the signature of the entry covers: the domain, the class
    /// and the host.
    pub fn signing_payload(&self) -> (r: Vec<u8>)
        ensures
            r@ == net_payload(self.host@),
    {
        bytes_of(
            SIGNING_DOMAIN.to_owned().concat("\nnet\n").concat(self.host.as_str()).as_str(),
        )
    }
}

impl PolicyEntry for NetEntry {
    open spec fn spec_subject(self) -> Seq<char> {
        self.host@
    }

    open spec fn spec_payload(self) -> Seq<u8> {
        net_payload(self.host@)
    }

    open spec fn spec_signature(self) -> Option<Seq<char>> {
        text_in(self.sig)
    }

    fn subject(&self) -> (r: &str) {
        self.host.as_str()
    }

    fn payload(&self) -> (r: Vec<u8>) {
        self.signing_payload()
    }

    fn signature(&self) -> (r: &Option<String>) {
        &self.sig
    }

    fn duplicate(&self) -> (r: Self) {
        self.clone()
    }
}

/// Judges whether a signature over a payload is that of the trusted signer.
/// The answer depends on the payload and the signature alone.
pub trait ApproveVerifier {
    /// Why the signature is not accepted, if it is not. An implementation that
    /// does not say is believed to have some answer, and nothing is known of it.
    closed spec fn refusal(&self, payload: Seq<u8>, sig: Seq<u8>) -> Option<Seq<char>> {
        vstd::pervasive::arbitrary()
    }

    /// Accepts the signature, or says why not.
    fn verify(&self, payload: &[u8], sig: &[u8]) -> (r: Result<(), String>)
        ensures
            match self.refusal(payload@, sig@) {
                None => r is Ok,
                Some(reason) => r matches Err(e) && e@ == reason,
            },
    ;
}

/// Why bytes are not an Ed25519 verifying key, if they are not.
pub uninterp spec fn key_refusal(key: Seq<u8>) -> Option<Seq<char>>;

/// What `ed25519_dalek::VerifyingKey::from_bytes` makes of the bytes of a key:
/// whether they are one, and the text of its error where they are not.
#[verifier::external_body]
fn check_key(key: &[u8; 32]) -> (r: Result<(), String>)
    ensures
        match key_refusal(key@) {
            None => r is Ok,
            Some(reason) => r matches Err(e) && e@ == reason,
        },
{
    match ed25519_dalek::VerifyingKey::from_bytes(key) {
        Ok(_) => Ok(()),
        Err(e) => Err(e.to_string()),
    }
}

/// Why a signature over a message is not that of a key, if it is not.
pub uninterp spec fn signature_refusal(
    key: Seq<u8>,
    message: Seq<u8>,
    signature: Seq<u8>,
) -> Option<Seq<char>>;

/// What `ed25519_dalek::VerifyingKey::verify_strict` says of a signature over a
/// message under a key, with the text of its error where it refuses.
#[verifier::external_body]
fn check_signature(key: &[u8; 32], message: &[u8], signature: &[u8; 64]) -> (r: Result<(), String>)
    requires
        key_refusal(key@) is None,
    ensures
        match signature_refusal(key@, message@, signature@) {
            None => r is Ok,
            Some(reason) => r matches Err(e) && e@ == reason,
        },
{
    let key = ed25519_dalek::VerifyingKey::from_bytes(key).map_err(|e| e.to_string())?;
    let signature = ed25519_dalek::Signature::from_bytes(signature);
    key.verify_strict(message, &signature).map_err(|e| e.to_string())
}

/// Why a signature is not accepted under a key: the key is none, the signature
/// has not the right length, or it is not that of the key.
pub open spec fn ed25519_refusal(key: Seq<u8>, payload: Seq<u8>, sig: Seq<u8>) -> Option<
    Seq<char>,
> {
    if key_refusal(key) is Some {
        key_refusal(key)
    } else if sig.len() != 64 {
        Some("signature is not 64 bytes"@)
    } else {
        signature_refusal(key, payload, sig)
    }
}

/// Accepts the signatures of one Ed25519 key.
#[derive(Debug, Clone, Copy)]
pub struct Ed25519ApproveVerifier {
    /// The key of the trusted signer.
    pub verifying_key: [u8; 32],
}

fn sixty_four(bytes: &[u8]) -> (r: [u8; 64])
    requires
        bytes@.len() == 64,
    ensures
        r@ == bytes@,
{
    let mut r: [u8; 64] = [0u8; 64];
    let mut i: usize = 0;
    while i < 64
        invariant
            i <= 64,
            bytes@.len() == 64,
            r@.len() == 64,
            forall|k: int| 0 <= k < i ==> r@[k] == bytes@[k],
        decreases 64 - i,
    {
        r[i] = bytes[i];
        i = i + 1;
    }
    assert(r@ =~= bytes@);
    r
}

impl ApproveVerifier for Ed25519ApproveVerifier {
    open spec fn refusal(&self, payload: Seq<u8>, sig: Seq<u8>) -> Option<Seq<char>> {
        ed25519_refusal(self.verifying_key@, payload, sig)
    }

    fn verify(&self, payload: &[u8], sig: &[u8]) -> (r: Result<(), String>) {
        if let Err(e) = check_key(&self.verifying_key) {
            return Err(e);
        }
        if sig.len() != 64 {
            return Err("signature is not 64 bytes".to_owned());
        }
        let whole: [u8; 64] = sixty_four(sig);
        check_signature(&self.verifying_key, payload, &whole)
    }
}

/// The entries of one verdict.
#[derive(Debug, PartialEq)]
pub struct PolicyFile {
    /// Entries about commands.
    pub exec exec: Vec<ExecEntry>,
    /// Entries about paths.
    pub fs: Vec<FsEntry>,
    /// Entries about hosts.
    pub net: Vec<NetEntry>,
}

impl Default for PolicyFile {
    fn default() -> (r: Self)
        ensures
            r.exec@ == Seq::<ExecEntry>::empty(),
            r.fs@ == Seq::<FsEntry>::empty(),
            r.net@ == Seq::<NetEntry>::empty(),
    {
        PolicyFile { exec: Vec::new(), fs: Vec::new(), net: Vec::new() }
    }
}

/// Why an entry is no approval, if it is none: it is not signed, its signature
/// is not hexadecimal, or the signature is not accepted.
pub open spec fn entry_refusal<E: PolicyEntry, V: ApproveVerifier>(verifier: V, entry: E) -> Option<
    Seq<char>,
> {
    match entry.spec_signature() {
        None => Some("missing `sig` (unsigned approve)"@),
        Some(sig) => match hex_decoded(encode_utf8(sig)) {
            Err(reason) => Some(reason),
            Ok(raw) => verifier.refusal(entry.spec_payload(), raw),
        },
    }
}

/// The entries that are approvals, in their order.
pub open spec fn approved<E: PolicyEntry, V: ApproveVerifier>(verifier: V, entries: Seq<E>) -> Seq<E>
    decreases entries.len(),
{
    if entries.len() == 0 {
        Seq::empty()
    } else if entry_refusal(verifier, entries.last()) is None {
        approved(verifier, entries.drop_last()).push(entries.last())
    } else {
        approved(verifier, entries.drop_last())
    }
}

/// What is said of an entry that is no approval.
pub open spec fn drop_notice(subject: Seq<char>, reason: Seq<char>) -> Seq<char> {
    "approve entry `"@ + subject + "` dropped: "@ + reason
}

/// What is said of the entries that are no approvals, in their order.
pub open spec fn drop_notices<E: PolicyEntry, V: ApproveVerifier>(
    verifier: V,
    entries: Seq<E>,
) -> Seq<Seq<char>>
    decreases entries.len(),
{
    if entries.len() == 0 {
        Seq::empty()
    } else {
        let earlier = drop_notices(verifier, entries.drop_last());
        match entry_refusal(verifier, entries.last()) {
            None => earlier,
            Some(reason) => earlier.push(drop_notice(entries.last().spec_subject(), reason)),
        }
    }
}

fn judge_entry<E: PolicyEntry, V: ApproveVerifier>(verifier: &V, entry: &E) -> (r: Result<
    (),
    String,
>)
    ensures
        match entry_refusal(*verifier, *entry) {
            None => r is Ok,
            Some(reason) => r matches Err(e) && e@ == reason,
        },
{
    match entry.signature() {
        None => Err("missing `sig` (unsigned approve)".to_owned()),
        Some(sig) => match hex_decode(sig.as_str()) {
            Err(e) => Err(e),
            Ok(raw) => verifier.verify(entry.payload().as_slice(), raw.as_slice()),
        },
    }
}

fn keep_approved<E: PolicyEntry, V: ApproveVerifier>(
    verifier: &V,
    entries: &Vec<E>,
    warnings: &mut Vec<String>,
) -> (r: Vec<E>)
    ensures
        r@ == approved(*verifier, entries@),
        views(final(warnings)@) == views(old(warnings)@) + drop_notices(*verifier, entries@),
{
    let mut kept: Vec<E> = Vec::new();
    let ghost before = views(warnings@);
    let mut i: usize = 0;
    assert(views(warnings@) =~= before + drop_notices(*verifier, entries@.take(0)));
    while i < entries.len()
        invariant
            i <= entries.len(),
            kept@ == approved(*verifier, entries@.take(i as int)),
            views(warnings@) == before + drop_notices(*verifier, entries@.take(i as int)),
        decreases entries.len() - i,
    {
        let ghost longer = entries@.take(i + 1);
        assert(longer.drop_last() =~= entries@.take(i as int));
        assert(longer.last() == entries@[i as int]);
        match judge_entry(verifier, &entries[i]) {
            Ok(()) => {
                kept.push(entries[i].duplicate());
            },
            Err(reason) => {
                let notice: String = "approve entry `".to_owned().concat(
                    entries[i].subject(),
                ).concat("` dropped: ").concat(reason.as_str());
                let ghost earlier = warnings@;
                warnings.push(notice);
                proof {
                    crate::sets::lemma_views_push(earlier, notice);
                    assert(views(warnings@) =~= before + drop_notices(*verifier, longer));
                }
            },
        }
        i = i + 1;
    }
    assert(entries@.take(i as int) =~= entries@);
    kept
}

impl PolicyFile {
    /// The entries that are approvals, and a warning for each that is none.
    pub fn verified_approves<V: ApproveVerifier>(&self, verifier: &V) -> (r: (Self, Vec<String>))
        ensures
            r.0.exec@ == approved(*verifier, self.exec@),
            r.0.fs@ == approved(*verifier, self.fs@),
            r.0.net@ == approved(*verifier, self.net@),
            views(r.1@) == drop_notices(*verifier, self.exec@) + drop_notices(*verifier, self.fs@)
                + drop_notices(*verifier, self.net@),
    {
        let mut warnings: Vec<String> = Vec::new();
        assert(views(warnings@) =~= Seq::<Seq<char>>::empty());
        let commands: Vec<ExecEntry> = keep_approved(verifier, &self.exec, &mut warnings);
        let paths: Vec<FsEntry> = keep_approved(verifier, &self.fs, &mut warnings);
        let hosts: Vec<NetEntry> = keep_approved(verifier, &self.net, &mut warnings);
        assert(views(warnings@) =~= drop_notices(*verifier, self.exec@) + drop_notices(
            *verifier,
            self.fs@,
        ) + drop_notices(*verifier, self.net@));
        (PolicyFile { exec: commands, fs: paths, net: hosts }, warnings)
    }

    /// The file has an entry about exactly this target.
    pub open spec fn names(self, class: CapabilityClass, target: Seq<char>) -> bool {
        match class {
            CapabilityClass::Exec => entry_named(self.exec@, target),
            CapabilityClass::Fs => entry_named(self.fs@, target),
            CapabilityClass::Net => entry_named(self.net@, target),
        }
    }

    /// Whether the file has an entry about exactly this target.
    pub fn has_entry(&self, class: CapabilityClass, target: &str) -> (r: bool)
        ensures
            r == self.names(class, target@),
    {
        match class {
            CapabilityClass::Exec => find_entry(&self.exec, target),
            CapabilityClass::Fs => find_entry(&self.fs, target),
            CapabilityClass::Net => find_entry(&self.net, target),
        }
    }
}

/// One of the entries is about exactly this target.
pub open spec fn entry_named<E: PolicyEntry>(entries: Seq<E>, target: Seq<char>) -> bool {
    exists|i: int| 0 <= i < entries.len() && #[trigger] entries[i].spec_subject() == target
}

fn find_entry<E: PolicyEntry>(entries: &Vec<E>, target: &str) -> (r: bool)
    ensures
        r == entry_named(entries@, target@),
{
    let mut i: usize = 0;
    while i < entries.len()
        invariant
            i <= entries.len(),
            forall|k: int| 0 <= k < i ==> (#[trigger] entries@[k]).spec_subject() != target@,
        decreases entries.len() - i,
    {
        if str_equal(entries[i].subject(), target) {
            assert(entries@[i as int].spec_subject() == target@);
            return true;
        }
        i = i + 1;
    }
    false
}

/// The kinds of capability that a durable policy covers.
#[derive(Debug, Clone, Copy, PartialEq, Eq, Structural)]
pub enum CapabilityClass {
    /// To execute a command.
    Exec,
    /// To use a path.
    Fs,
    /// To reach a host.
    Net,
}

/// At most one file for each verdict.
#[derive(Debug, PartialEq)]
pub struct VerdictFiles {
    deny: Option<PolicyFile>,
    passkey: Option<PolicyFile>,
    ask: Option<PolicyFile>,
    approve: Option<PolicyFile>,
}

impl VerdictFiles {
    spec fn slot(self, verdict: Verdict) -> Option<PolicyFile> {
        match verdict {
            Verdict::Deny => self.deny,
            Verdict::Passkey => self.passkey,
            Verdict::Ask => self.ask,
            Verdict::Approve => self.approve,
        }
    }

    /// The file of a verdict.
    pub fn get(&self, verdict: Verdict) -> (r: Option<&PolicyFile>)
        ensures
            r == (if self@.dom().contains(verdict) {
                Some(&self@[verdict])
            } else {
                None
            }),
    {
        match verdict {
            Verdict::Deny => self.deny.as_ref(),
            Verdict::Passkey => self.passkey.as_ref(),
            Verdict::Ask => self.ask.as_ref(),
            Verdict::Approve => self.approve.as_ref(),
        }
    }

    /// Puts the file of a verdict in the place of an earlier one.
    pub fn insert(&mut self, verdict: Verdict, file: PolicyFile)
        ensures
            final(self)@ == old(self)@.insert(verdict, file),
    {
        match verdict {
            Verdict::Deny => {
                self.deny = Some(file);
            },
            Verdict::Passkey => {
                self.passkey = Some(file);
            },
            Verdict::Ask => {
                self.ask = Some(file);
            },
            Verdict::Approve => {
                self.approve = Some(file);
            },
        }
        assert(self@ =~= old(self)@.insert(verdict, file));
    }
}

impl View for VerdictFiles {
    type V = Map<Verdict, PolicyFile>;

    closed spec fn view(&self) -> Map<Verdict, PolicyFile> {
        Map::new(|v: Verdict| self.slot(v) is Some, |v: Verdict| self.slot(v)->0)
    }
}

impl Default for VerdictFiles {
    fn default() -> (r: Self)
        ensures
            r@ == Map::<Verdict, PolicyFile>::empty(),
    {
        let r: VerdictFiles = VerdictFiles { deny: None, passkey: None, ask: None, approve: None };
        assert(r@ =~= Map::<Verdict, PolicyFile>::empty());
        r
    }
}

/// The file of this verdict has an entry about the target.
pub open spec fn rules_on(
    files: Map<Verdict, PolicyFile>,
    verdict: Verdict,
    class: CapabilityClass,
    target: Seq<char>,
) -> bool {
    files.dom().contains(verdict) && files[verdict].names(class, target)
}

/// What the files decide about a target: nothing where none has an entry about
/// it, and otherwise the most restrictive verdict whose file has one.
pub open spec fn decides(
    files: Map<Verdict, PolicyFile>,
    class: CapabilityClass,
    target: Seq<char>,
    r: Option<Verdict>,
) -> bool {
    match r {
        None => forall|v: Verdict| !#[trigger] rules_on(files, v, class, target),
        Some(best) => {
            &&& rules_on(files, best, class, target)
            &&& forall|v: Verdict| #[trigger]
                rules_on(files, v, class, target) ==> best.place() <= v.place()
        },
    }
}

/// The files of all verdicts.
#[derive(Debug, PartialEq)]
pub struct PolicySet {
    /// The files.
    pub files: VerdictFiles,
}

impl Default for PolicySet {
    fn default() -> (r: Self)
        ensures
            r.files@ == Map::<Verdict, PolicyFile>::empty(),
    {
        PolicySet { files: VerdictFiles::default() }
    }
}

/// The refusal to approve a dangerous target for good.
pub open spec fn danger_refusal(target: Seq<char>) -> Seq<char> {
    "`"@ + target
        + "` is a high-danger target and cannot be durably approved (offer passkey step-up instead)"@
}

impl PolicySet {
    fn rules(&self, verdict: Verdict, class: CapabilityClass, target: &str) -> (r: bool)
        ensures
            r == rules_on(self.files@, verdict, class, target@),
    {
        match self.files.get(verdict) {
            Some(file) => file.has_entry(class, target),
            None => false,
        }
    }

    /// What the policy decides about a target: the most restrictive verdict
    /// with an entry about exactly that target.
    pub fn evaluate(&self, class: CapabilityClass, target: &str) -> (r: Option<Verdict>)
        ensures
            decides(self.files@, class, target@, r),
    {
        let deny: bool = self.rules(Verdict::Deny, class, target);
        let passkey: bool = self.rules(Verdict::Passkey, class, target);
        let ask: bool = self.rules(Verdict::Ask, class, target);
        let approve: bool = self.rules(Verdict::Approve, class, target);
        if deny {
            Some(Verdict::Deny)
        } else if passkey {
            Some(Verdict::Passkey)
        } else if ask {
            Some(Verdict::Ask)
        } else if approve {
            Some(Verdict::Approve)
        } else {
            None
        }
    }

    /// Whether a target may be approved for good: not where it is judged to be
    /// dangerous.
    pub fn validate_approve<F: Fn(CapabilityClass, &str) -> bool>(
        class: CapabilityClass,
        target: &str,
        is_high_danger: F,
    ) -> (r: Result<(), String>)
        requires
            call_requires(is_high_danger, (class, target)),
        ensures
            exists|danger: bool|
                {
                    &&& #[trigger] call_ensures(is_high_danger, (class, target), danger)
                    &&& if danger {
                        r matches Err(e) && e@ == danger_refusal(target@)
                    } else {
                        r is Ok
                    }
                },
    {
        let danger: bool = is_high_danger(class, target);
        if danger {
            return Err(
                "`".to_owned().concat(target).concat(
                    "` is a high-danger target and cannot be durably approved (offer passkey step-up instead)",
                ),
            );
        }
        Ok(())
    }
}

/// The files decide one thing about a target, and the most restrictive verdict
/// wins: no entry of another verdict shadows a denial, and none but a denial
/// shadows a passkey.
pub proof fn law_the_most_restrictive_verdict_wins(
    files: Map<Verdict, PolicyFile>,
    class: CapabilityClass,
    target: Seq<char>,
    r: Option<Verdict>,
    other: Option<Verdict>,
)
    requires
        decides(files, class, target, r),
    ensures
        decides(files, class, target, other) ==> other == r,
        rules_on(files, Verdict::Deny, class, target) ==> r == Some(Verdict::Deny),
        rules_on(files, Verdict::Passkey, class, target) ==> r == Some(Verdict::Passkey) || r
            == Some(Verdict::Deny),
        r == Some(Verdict::Approve) ==> !rules_on(files, Verdict::Deny, class, target)
            && !rules_on(files, Verdict::Passkey, class, target) && !rules_on(
            files,
            Verdict::Ask,
            class,
            target,
        ),
{
}

/// Every approval that is kept is one of the entries, is signed, and its
/// signature is accepted; every entry that is not kept is reported.
pub proof fn law_only_signed_approvals_are_kept<E: PolicyEntry, V: ApproveVerifier>(
    verifier: V,
    entries: Seq<E>,
)
    ensures
        forall|i: int|
            0 <= i < approved(verifier, entries).len() ==> {
                let kept = #[trigger] approved(verifier, entries)[i];
                &&& entries.contains(kept)
                &&& kept.spec_signature() is Some
                &&& entry_refusal(verifier, kept) is None
            },
        forall|j: int|
            0 <= j < entries.len() && entry_refusal(verifier, #[trigger] entries[j]) is None
                ==> approved(verifier, entries).contains(entries[j]),
        approved(verifier, entries).len() + drop_notices(verifier, entries).len() == entries.len(),
    decreases entries.len(),
{
    if entries.len() > 0 {
        let earlier = entries.drop_last();
        law_only_signed_approvals_are_kept(verifier, earlier);
        let before = approved(verifier, earlier);
        let all = approved(verifier, entries);
        assert forall|i: int| 0 <= i < all.len() implies {
            let kept = #[trigger] all[i];
            &&& entries.contains(kept)
            &&& kept.spec_signature() is Some
            &&& entry_refusal(verifier, kept) is None
        } by {
            if i < before.len() {
                assert(all[i] == before[i]);
                let j = choose|j: int| 0 <= j < earlier.len() && earlier[j] == before[i];
                assert(entries[j] == all[i]);
            } else {
                assert(entries[entries.len() - 1] == all[i]);
            }
        }
        assert forall|j: int|
            0 <= j < entries.len() && entry_refusal(verifier, #[trigger] entries[j]) is None implies all.contains(
            entries[j],
        ) by {
            if j < earlier.len() {
                assert(earlier[j] == entries[j]);
                let i = choose|i: int| 0 <= i < before.len() && before[i] == entries[j];
                assert(all[i] == entries[j]);
            } else {
                assert(all[all.len() - 1] == entries[j]);
            }
        }
    }
}

/// A signature covers one authority: two approvals have the same payload only
/// where they are of the same class, for the same target, and both or neither
/// for writing.
pub proof fn law_a_signature_covers_one_authority(
    a: Seq<char>,
    b: Seq<char>,
    write_a: bool,
    write_b: bool,
)
    ensures
        exec_payload(a) == exec_payload(b) ==> a == b,
        net_payload(a) == net_payload(b) ==> a == b,
        fs_payload(a, write_a) == fs_payload(b, write_b) ==> a == b && write_a == write_b,
        exec_payload(a) != net_payload(b),
        exec_payload(a) != fs_payload(b, write_b),
        net_payload(a) != fs_payload(b, write_b),
{
    reveal_strlit("agent-bridle:ocap-approve:v1");
    reveal_strlit("\nexec\n");
    reveal_strlit("\nfs\n");
    reveal_strlit("\nnet\n");
    reveal_strlit("\nwrite=");
    reveal_strlit("true");
    reveal_strlit("false");
    let domain = "agent-bridle:ocap-approve:v1"@;
    let n = domain.len() as int;
    let on_exec = domain + "\nexec\n"@;
    let on_net = domain + "\nnet\n"@;
    let on_fs = domain + "\nfs\n"@;
    if exec_payload(a) == exec_payload(b) {
        lemma_utf8_injective(on_exec + a, on_exec + b);
        lemma_same_rest(on_exec, a, b);
    }
    if net_payload(a) == net_payload(b) {
        lemma_utf8_injective(on_net + a, on_net + b);
        lemma_same_rest(on_net, a, b);
    }
    let text_a = if write_a {
        "true"@
    } else {
        "false"@
    };
    let text_b = if write_b {
        "true"@
    } else {
        "false"@
    };
    let whole_a = on_fs + a + "\nwrite="@ + text_a;
    let whole_b = on_fs + b + "\nwrite="@ + text_b;
    if fs_payload(a, write_a) == fs_payload(b, write_b) {
        lemma_utf8_injective(whole_a, whole_b);
        let end = whole_a.len() as int;
        assert(whole_a[end - 2] == text_a[text_a.len() - 2]);
        assert(whole_b[end - 2] == text_b[text_b.len() - 2]);
        assert(write_a == write_b);
        assert(whole_a.subrange(on_fs.len() as int, (on_fs.len() + a.len()) as int) =~= a);
        assert(whole_b.subrange(on_fs.len() as int, (on_fs.len() + b.len()) as int) =~= b);
    }
    if exec_payload(a) == net_payload(b) {
        lemma_utf8_injective(on_exec + a, on_net + b);
        assert((on_exec + a)[n + 1] == 'e');
        assert((on_net + b)[n + 1] == 'n');
    }
    if exec_payload(a) == fs_payload(b, write_b) {
        lemma_utf8_injective(on_exec + a, whole_b);
        assert((on_exec + a)[n + 1] == 'e');
        assert(whole_b[n + 1] == 'f');
    }
    if net_payload(a) == fs_payload(b, write_b) {
        lemma_utf8_injective(on_net + a, whole_b);
        assert((on_net + a)[n + 1] == 'n');
        assert(whole_b[n + 1] == 'f');
    }
}

proof fn lemma_same_rest(head: Seq<char>, a: Seq<char>, b: Seq<char>)
    requires
        head + a == head + b,
    ensures
        a == b,
{
    let n = head.len() as int;
    assert((head + a).subrange(n, (head + a).len() as int) =~= a);
    assert((head + b).subrange(n, (head + b).len() as int) =~= b);
}

} // verus!
