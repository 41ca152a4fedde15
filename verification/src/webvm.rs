//! Capability-gated sandbox stub.
//!
//! No untrusted code runs. An app declares the capabilities that it wants;
//! the [`Broker`] grants or denies them by its policy and keeps a log.

use crate::content::{texts, Capability, CapabilityView, Props};
use crate::renderer::joined;
use crate::text::{dec_chars, decimal};
use vstd::prelude::*;
use vstd::string::*;

verus! {

/// Why the sandbox refuses.
#[derive(Debug, Clone, PartialEq, Eq)]
pub enum VmError {
    /// The policy refused the capability.
    Denied(String),
    /// No backend runs this app.
    NotImplemented(String),
    /// A runtime budget ran out.
    Exhausted(String),
}

/// The mathematical value of a [`VmError`].
pub enum VmErrorView {
    Denied(Seq<char>),
    NotImplemented(Seq<char>),
    Exhausted(Seq<char>),
}

impl View for VmError {
    type V = VmErrorView;

    open spec fn view(&self) -> VmErrorView {
        match self {
            VmError::Denied(s) => VmErrorView::Denied(s@),
            VmError::NotImplemented(s) => VmErrorView::NotImplemented(s@),
            VmError::Exhausted(s) => VmErrorView::Exhausted(s@),
        }
    }
}

/// What a [`VmError`] says to a reader.
pub open spec fn error_text(e: VmErrorView) -> Seq<char> {
    match e {
        VmErrorView::Denied(s) => "denied: "@ + s,
        VmErrorView::NotImplemented(s) => "not implemented: "@ + s,
        VmErrorView::Exhausted(s) => "resource exhausted: "@ + s,
    }
}

impl VmError {
    /// What the error says to a reader.
    pub fn to_string(&self) -> (out: String)
        ensures
            out@ == error_text(self@),
    {
        match self {
            VmError::Denied(s) => "denied: ".to_owned().concat(s.as_str()),
            VmError::NotImplemented(s) => "not implemented: ".to_owned().concat(s.as_str()),
            VmError::Exhausted(s) => "resource exhausted: ".to_owned().concat(s.as_str()),
        }
    }
}

/// A granted capability, for the record.
#[derive(Debug, Clone, PartialEq, Eq)]
pub struct Grant {
    /// The kind of capability.
    pub capability: String,
    /// The request that was granted.
    pub scope: String,
}

/// The mathematical value of a [`Grant`].
pub struct GrantView {
    pub capability: Seq<char>,
    pub scope: Seq<char>,
}

impl View for Grant {
    type V = GrantView;

    open spec fn view(&self) -> GrantView {
        GrantView { capability: self.capability@, scope: self.scope@ }
    }
}

/// What the [`Broker`] may grant.
#[derive(Debug, Clone)]
pub struct Policy {
    /// Allowed kinds of capability; none denies everything.
    pub allow: Vec<String>,
    /// Most storage, in kilobytes.
    pub storage_max_kb: u32,
}

/// The mathematical value of a [`Policy`].
pub struct PolicyView {
    pub allow: Seq<Seq<char>>,
    pub storage_max_kb: u32,
}

impl View for Policy {
    type V = PolicyView;

    open spec fn view(&self) -> PolicyView {
        PolicyView { allow: texts(self.allow@), storage_max_kb: self.storage_max_kb }
    }
}

/// The policy that grants nothing.
pub open spec fn denying() -> PolicyView {
    PolicyView { allow: Seq::empty(), storage_max_kb: 0 }
}

impl Default for Policy {
    fn default() -> (p: Self)
        ensures
            p@ == denying(),
    {
        Self::deny_all()
    }
}

impl Policy {
    /// Grants nothing.
    pub fn deny_all() -> (p: Self)
        ensures
            p@ == denying(),
    {
        let p = Policy { allow: Vec::new(), storage_max_kb: 0 };
        assert(p@.allow =~= Seq::empty());
        p
    }

    /// A permissive policy for local development.
    pub fn allow_all_dev() -> (p: Self)
        ensures
            p@ == (PolicyView {
                allow: seq!["storage"@, "network"@, "notify"@, "audio"@],
                storage_max_kb: 1024,
            }),
    {
        let mut allow: Vec<String> = Vec::new();
        allow.push("storage".to_owned());
        allow.push("network".to_owned());
        allow.push("notify".to_owned());
        allow.push("audio".to_owned());
        let p = Policy { allow, storage_max_kb: 1024 };
        assert(p@.allow =~= seq!["storage"@, "network"@, "notify"@, "audio"@]);
        p
    }
}

/// The kind of a capability.
pub open spec fn kind(cap: CapabilityView) -> Seq<char> {
    match cap {
        CapabilityView::Storage { .. } => "storage"@,
        CapabilityView::Network { .. } => "network"@,
        CapabilityView::Notify => "notify"@,
        CapabilityView::Audio => "audio"@,
        CapabilityView::Camera => "camera"@,
        CapabilityView::Microphone => "microphone"@,
    }
}

/// A text in quotes, as `Debug` of `str` writes it.
pub uninterp spec fn quoted(s: Seq<char>) -> Seq<char>;

/// `Debug` of `str`: the text in quotes, with escapes; it depends on the text
/// alone.
#[verifier::external_body]
pub(crate) fn quote(s: &str) -> (out: String)
    ensures
        out@ == quoted(s@),
{
    format!("{s:?}")
}

/// Texts in quotes.
pub open spec fn all_quoted(s: Seq<Seq<char>>) -> Seq<Seq<char>> {
    Seq::new(s.len(), |i: int| quoted(s[i]))
}

/// A capability as a request is written down.
pub open spec fn scope_text(cap: CapabilityView) -> Seq<char> {
    match cap {
        CapabilityView::Storage { max_kb } => "Storage { max_kb: "@ + dec_chars(max_kb as nat)
            + " }"@,
        CapabilityView::Network { hosts } => "Network { hosts: ["@ + joined(
            all_quoted(hosts),
            ", "@,
        ) + "] }"@,
        CapabilityView::Notify => "Notify"@,
        CapabilityView::Audio => "Audio"@,
        CapabilityView::Camera => "Camera"@,
        CapabilityView::Microphone => "Microphone"@,
    }
}

/// The storage that a capability asks for beyond the policy.
pub open spec fn over_quota(p: PolicyView, cap: CapabilityView) -> Option<u32> {
    match cap {
        CapabilityView::Storage { max_kb } => if max_kb > p.storage_max_kb {
            Some(max_kb)
        } else {
            None
        },
        _ => None,
    }
}

/// What a policy decides of a capability. The storage quota holds even for
/// an allowed kind.
pub open spec fn decision(p: PolicyView, cap: CapabilityView) -> Result<GrantView, VmErrorView> {
    match over_quota(p, cap) {
        Some(kb) => Err(
            VmErrorView::Denied(
                "storage quota "@ + dec_chars(kb as nat) + "kb exceeds policy "@ + dec_chars(
                    p.storage_max_kb as nat,
                ) + "kb"@,
            ),
        ),
        None => if !p.allow.contains(kind(cap)) {
            Err(VmErrorView::Denied(kind(cap) + " not granted"@))
        } else {
            Ok(GrantView { capability: kind(cap), scope: scope_text(cap) })
        },
    }
}

/// What the log says of a decision.
pub open spec fn log_entry(p: PolicyView, cap: CapabilityView) -> Seq<char> {
    match over_quota(p, cap) {
        Some(kb) => "DENY "@ + kind(cap) + " quota "@ + dec_chars(kb as nat),
        None => if !p.allow.contains(kind(cap)) {
            "DENY "@ + kind(cap)
        } else {
            "ALLOW "@ + kind(cap)
        },
    }
}

/// Checks the capabilities that a page requests against a [`Policy`], and
/// logs every decision.
#[derive(Debug)]
pub struct Broker {
    policy: Policy,
    granted: Vec<Grant>,
    log: Vec<String>,
}

/// The mathematical value of a [`Broker`].
pub struct BrokerView {
    pub policy: PolicyView,
    pub granted: Seq<GrantView>,
    pub log: Seq<Seq<char>>,
}

/// The values of grants.
pub open spec fn grants_view(s: Seq<Grant>) -> Seq<GrantView> {
    Seq::new(s.len(), |i: int| s[i]@)
}

impl View for Broker {
    type V = BrokerView;

    closed spec fn view(&self) -> BrokerView {
        BrokerView {
            policy: self.policy@,
            granted: grants_view(self.granted@),
            log: texts(self.log@),
        }
    }
}

/// The broker after it decided on a capability.
pub open spec fn decided(b: BrokerView, cap: CapabilityView) -> BrokerView {
    BrokerView {
        policy: b.policy,
        granted: match decision(b.policy, cap) {
            Ok(g) => b.granted.push(g),
            Err(_) => b.granted,
        },
        log: b.log.push(log_entry(b.policy, cap)),
    }
}

/// The broker after it decided on capabilities in turn, up to the first that
/// it denied.
pub open spec fn all_decided(b: BrokerView, caps: Seq<CapabilityView>) -> BrokerView
    decreases caps.len(),
{
    if caps.len() == 0 {
        b
    } else {
        match decision(b.policy, caps[0]) {
            Ok(_) => all_decided(decided(b, caps[0]), caps.skip(1)),
            Err(_) => decided(b, caps[0]),
        }
    }
}

/// What is decided of capabilities in turn: the first denial, or all grants.
pub open spec fn all_decisions(p: PolicyView, caps: Seq<CapabilityView>) -> Result<
    Seq<GrantView>,
    VmErrorView,
>
    decreases caps.len(),
{
    if caps.len() == 0 {
        Ok(Seq::empty())
    } else {
        match decision(p, caps[0]) {
            Err(e) => Err(e),
            Ok(g) => after_grants(seq![g], all_decisions(p, caps.skip(1))),
        }
    }
}

/// Grants made before, then those made later.
pub open spec fn after_grants(
    grants: Seq<GrantView>,
    later: Result<Seq<GrantView>, VmErrorView>,
) -> Result<Seq<GrantView>, VmErrorView> {
    match later {
        Ok(more) => Ok(grants + more),
        Err(e) => Err(e),
    }
}

/// The kind of a capability.
fn kind_of(cap: &Capability) -> (out: &'static str)
    ensures
        out@ == kind(cap@),
{
    match cap {
        Capability::Storage { .. } => "storage",
        Capability::Network { .. } => "network",
        Capability::Notify => "notify",
        Capability::Audio => "audio",
        Capability::Camera => "camera",
        Capability::Microphone => "microphone",
    }
}

/// Texts in quotes, with a separator between.
fn join_quoted(parts: &Vec<String>, sep: &str) -> (out: String)
    ensures
        out@ == joined(all_quoted(texts(parts@)), sep@),
{
    let mut out = String::new();
    let mut i: usize = 0;
    let ghost all = all_quoted(texts(parts@));
    assert(all.take(0) =~= Seq::empty());
    while i < parts.len()
        invariant
            i <= parts@.len(),
            all == all_quoted(texts(parts@)),
            out@ == joined(all.take(i as int), sep@),
        decreases parts@.len() - i,
    {
        let q = quote(parts[i].as_str());
        proof {
            assert(all.take(i + 1).drop_last() =~= all.take(i as int));
            assert(all.take(i + 1).last() == q@);
            assert(Seq::<char>::empty() + q@ =~= q@);
        }
        if i > 0 {
            out.append(sep);
        }
        out.append(q.as_str());
        i = i + 1;
    }
    assert(all.take(i as int) =~= all);
    out
}

/// A capability as a request is written down.
fn write_scope(cap: &Capability) -> (out: String)
    ensures
        out@ == scope_text(cap@),
{
    match cap {
        Capability::Storage { max_kb } => "Storage { max_kb: ".to_owned().concat(
            decimal(*max_kb as u64).as_str(),
        ).concat(" }"),
        Capability::Network { hosts } => "Network { hosts: [".to_owned().concat(
            join_quoted(hosts, ", ").as_str(),
        ).concat("] }"),
        Capability::Notify => "Notify".to_owned(),
        Capability::Audio => "Audio".to_owned(),
        Capability::Camera => "Camera".to_owned(),
        Capability::Microphone => "Microphone".to_owned(),
    }
}

/// Whether a text is among some.
fn holds_text(list: &Vec<String>, text: &str) -> (found: bool)
    ensures
        found == texts(list@).contains(text@),
{
    let mut i: usize = 0;
    while i < list.len()
        invariant
            i <= list@.len(),
            forall|j: int| 0 <= j < i ==> #[trigger] list@[j]@ != text@,
        decreases list@.len() - i,
    {
        if crate::text::same_text(list[i].as_str(), text) {
            assert(texts(list@)[i as int] == text@);
            return true;
        }
        i = i + 1;
    }
    assert forall|j: int| 0 <= j < texts(list@).len() implies texts(list@)[j] != text@ by {
        assert(list@[j]@ != text@);
    }
    false
}

impl Broker {
    /// A broker with a policy, without grants, with an empty log.
    pub fn new(policy: Policy) -> (b: Self)
        ensures
            b@ == (BrokerView { policy: policy@, granted: Seq::empty(), log: Seq::empty() }),
    {
        let b = Broker { policy, granted: Vec::new(), log: Vec::new() };
        assert(b@.granted =~= Seq::empty());
        assert(b@.log =~= Seq::empty());
        b
    }

    /// Decides on a capability, and logs the decision.
    pub fn check(&mut self, cap: &Capability) -> (out: Result<Grant, VmError>)
        ensures
            final(self)@ == decided(old(self)@, cap@),
            match out {
                Ok(g) => decision(old(self)@.policy, cap@) == Ok::<GrantView, VmErrorView>(g@),
                Err(e) => decision(old(self)@.policy, cap@) == Err::<GrantView, VmErrorView>(e@),
            },
    {
        let name = kind_of(cap);
        if let Capability::Storage { max_kb } = cap {
            if *max_kb > self.policy.storage_max_kb {
                self.log.push(
                    "DENY ".to_owned().concat(name).concat(" quota ").concat(
                        decimal(*max_kb as u64).as_str(),
                    ),
                );
                assert(self@.log =~= decided(old(self)@, cap@).log);
                return Err(
                    VmError::Denied(
                        "storage quota ".to_owned().concat(
                            decimal(*max_kb as u64).as_str(),
                        ).concat("kb exceeds policy ").concat(
                            decimal(self.policy.storage_max_kb as u64).as_str(),
                        ).concat("kb"),
                    ),
                );
            }
        }
        if !holds_text(&self.policy.allow, name) {
            self.log.push("DENY ".to_owned().concat(name));
            assert(self@.log =~= decided(old(self)@, cap@).log);
            return Err(VmError::Denied(name.to_owned().concat(" not granted")));
        }
        let scope = write_scope(cap);
        self.log.push("ALLOW ".to_owned().concat(name));
        self.granted.push(Grant { capability: name.to_owned(), scope: scope.clone() });
        assert(self@.log =~= decided(old(self)@, cap@).log);
        assert(self@.granted =~= decided(old(self)@, cap@).granted);
        Ok(Grant { capability: name.to_owned(), scope })
    }

    /// Decides on all capabilities that a page requests, up to the first that
    /// is denied.
    pub fn check_all(&mut self, caps: &[Capability]) -> (out: Result<Vec<Grant>, VmError>)
        ensures
            final(self)@ == all_decided(old(self)@, crate::content::capabilities_view(caps@)),
            match out {
                Ok(g) => all_decisions(
                    old(self)@.policy,
                    crate::content::capabilities_view(caps@),
                ) == Ok::<Seq<GrantView>, VmErrorView>(grants_view(g@)),
                Err(e) => all_decisions(
                    old(self)@.policy,
                    crate::content::capabilities_view(caps@),
                ) == Err::<Seq<GrantView>, VmErrorView>(e@),
            },
    {
        let ghost all = crate::content::capabilities_view(caps@);
        let ghost policy = self@.policy;
        let mut grants: Vec<Grant> = Vec::new();
        let mut i: usize = 0;
        proof {
            assert(all.skip(0) =~= all);
            if let Ok(more) = all_decisions(policy, all) {
                assert(grants_view(grants@) + more =~= more);
            }
        }
        while i < caps.len()
            invariant
                i <= caps@.len(),
                all == crate::content::capabilities_view(caps@),
                self@.policy == policy,
                policy == old(self)@.policy,
                all_decided(old(self)@, all) == all_decided(self@, all.skip(i as int)),
                all_decisions(policy, all) == after_grants(
                    grants_view(grants@),
                    all_decisions(policy, all.skip(i as int)),
                ),
            decreases caps@.len() - i,
        {
            proof {
                assert(all.skip(i as int)[0] == caps@[i as int]@);
                assert(all.skip(i as int).skip(1) =~= all.skip(i + 1));
            }
            match self.check(&caps[i]) {
                Err(e) => return Err(e),
                Ok(g) => {
                    let ghost before = grants_view(grants@);
                    let ghost gv = g@;
                    grants.push(g);
                    proof {
                        assert(grants_view(grants@) =~= before + seq![gv]);
                        if let Ok(more) = all_decisions(policy, all.skip(i + 1)) {
                            assert(before + (seq![gv] + more) =~= grants_view(grants@) + more);
                        }
                    }
                },
            }
            i = i + 1;
        }
        assert(grants_view(grants@) + Seq::<GrantView>::empty() =~= grants_view(grants@));
        Ok(grants)
    }

    /// Drops all grants, and logs that.
    pub fn revoke_all(&mut self)
        ensures
            final(self)@ == (BrokerView {
                policy: old(self)@.policy,
                granted: Seq::empty(),
                log: old(self)@.log.push("REVOKE ALL"@),
            }),
    {
        self.granted.clear();
        self.log.push("REVOKE ALL".to_owned());
        assert(self@.granted =~= Seq::empty());
        assert(self@.log =~= old(self)@.log.push("REVOKE ALL"@));
    }

    /// The log, oldest entry first.
    pub fn audit_log(&self) -> (log: &[String])
        ensures
            texts(log@) == self@.log,
    {
        self.log.as_slice()
    }
}

/// A future execution backend.
pub trait Backend {
    /// Runs an app with its properties and returns what it puts out.
    fn run(&mut self, app_id: &str, props: &Props) -> (out: Result<String, VmError>);
}

/// A backend that runs nothing.
#[derive(Debug)]
pub struct NullBackend;

impl Default for NullBackend {
    fn default() -> (b: Self) {
        NullBackend
    }
}

impl Backend for NullBackend {
    fn run(&mut self, app_id: &str, props: &Props) -> (out: Result<String, VmError>)
        ensures
            out matches Err(e) && e@ == VmErrorView::NotImplemented(
                "no backend for app "@ + app_id@,
            ),
    {
        Err(VmError::NotImplemented("no backend for app ".to_owned().concat(app_id)))
    }
}

/// A policy that allows no kind denies every capability.
pub proof fn law_denied_by_default(p: PolicyView, cap: CapabilityView)
    requires
        p.allow.len() == 0,
    ensures
        decision(p, cap) is Err,
{
}

/// Whatever is granted is of an allowed kind, and within the storage quota.
pub proof fn law_grants_keep_to_the_policy(p: PolicyView, cap: CapabilityView)
    ensures
        decision(p, cap) is Ok ==> p.allow.contains(kind(cap)) && over_quota(p, cap) is None,
        decision(p, cap) is Ok <==> decided(
            BrokerView { policy: p, granted: Seq::empty(), log: Seq::empty() },
            cap,
        ).granted.len() == 1,
{
}

/// Every decision adds one entry to the log, and none is ever taken out.
pub proof fn law_every_decision_is_logged(b: BrokerView, caps: Seq<CapabilityView>)
    ensures
        b.log.len() <= all_decided(b, caps).log.len() <= b.log.len() + caps.len(),
        all_decided(b, caps).log.take(b.log.len() as int) == b.log,
        all_decisions(b.policy, caps) is Ok ==> all_decided(b, caps).log.len() == b.log.len()
            + caps.len(),
    decreases caps.len(),
{
    if caps.len() == 0 {
        assert(b.log.take(b.log.len() as int) =~= b.log);
    } else {
        let next = decided(b, caps[0]);
        assert(next.log.take(b.log.len() as int) =~= b.log);
        if decision(b.policy, caps[0]) is Ok {
            law_every_decision_is_logged(next, caps.skip(1));
            let end = all_decided(b, caps).log;
            assert(end.take(b.log.len() as int) =~= end.take(next.log.len() as int).take(
                b.log.len() as int,
            ));
        }
    }
}

/// A capability is granted exactly where the policy lists its own kind by
/// name, and storage only up to the quota. The grant carries that name.
pub proof fn law_only_listed_kinds_are_granted(p: PolicyView, cap: CapabilityView)
    ensures
        decision(p, cap) is Ok <==> match cap {
            CapabilityView::Storage { max_kb } => p.allow.contains("storage"@) && max_kb
                <= p.storage_max_kb,
            CapabilityView::Network { .. } => p.allow.contains("network"@),
            CapabilityView::Notify => p.allow.contains("notify"@),
            CapabilityView::Audio => p.allow.contains("audio"@),
            CapabilityView::Camera => p.allow.contains("camera"@),
            CapabilityView::Microphone => p.allow.contains("microphone"@),
        },
        decision(p, cap) matches Ok(g) ==> p.allow.contains(g.capability) && match cap {
            CapabilityView::Storage { .. } => g.capability == "storage"@,
            CapabilityView::Network { .. } => g.capability == "network"@,
            CapabilityView::Notify => g.capability == "notify"@,
            CapabilityView::Audio => g.capability == "audio"@,
            CapabilityView::Camera => g.capability == "camera"@,
            CapabilityView::Microphone => g.capability == "microphone"@,
        },
        decision(p, cap) matches Err(e) ==> e is Denied,
{
}

/// No two different kinds of capability share a name.
pub proof fn law_kinds_have_names_of_their_own(a: CapabilityView, b: CapabilityView)
    requires
        kind(a) == kind(b),
    ensures
        a is Storage <==> b is Storage,
        a is Network <==> b is Network,
        a is Notify <==> b is Notify,
        a is Audio <==> b is Audio,
        a is Camera <==> b is Camera,
        a is Microphone <==> b is Microphone,
{
    reveal_strlit("storage");
    reveal_strlit("network");
    reveal_strlit("notify");
    reveal_strlit("audio");
    reveal_strlit("camera");
    reveal_strlit("microphone");
    assert("storage"@[0] == 's' && "network"@[1] == 'e' && "notify"@[1] == 'o');
    assert("network"@[0] == 'n' && "notify"@[0] == 'n' && "audio"@[0] == 'a');
    assert("camera"@[0] == 'c' && "microphone"@[0] == 'm');
}

/// What a policy decides of a capability rests on whether its kind is listed
/// and on the quota alone: other entries of the list change nothing.
pub proof fn law_other_entries_change_nothing(p: PolicyView, cap: CapabilityView, other: Seq<char>)
    requires
        other != kind(cap),
    ensures
        decision(PolicyView { allow: p.allow.push(other), ..p }, cap) == decision(p, cap),
        decision(PolicyView { allow: p.allow.push(kind(cap)), ..p }, cap) is Ok <==> match cap {
            CapabilityView::Storage { max_kb } => max_kb <= p.storage_max_kb,
            _ => true,
        },
{
    let more = p.allow.push(other);
    assert(more.contains(kind(cap)) <==> p.allow.contains(kind(cap))) by {
        if more.contains(kind(cap)) {
            let i = more.index_of(kind(cap));
            assert(p.allow[i] == kind(cap));
        }
        if p.allow.contains(kind(cap)) {
            let i = p.allow.index_of(kind(cap));
            assert(more[i] == kind(cap));
        }
    }
    let own = p.allow.push(kind(cap));
    assert(own[own.len() - 1] == kind(cap));
}

/// A grant is recorded with a log entry that starts with `ALLOW `, a denial
/// with one that starts with `DENY ` and without a grant. Both name the kind,
/// and nothing recorded before is lost.
pub proof fn law_the_log_tells_grants_from_denials(b: BrokerView, cap: CapabilityView)
    ensures
        decided(b, cap).policy == b.policy,
        decided(b, cap).log.drop_last() == b.log,
        match decision(b.policy, cap) {
            Ok(g) => decided(b, cap).granted == b.granted.push(g) && decided(b, cap).log.last()
                == "ALLOW "@ + g.capability,
            Err(_) => decided(b, cap).granted == b.granted && decided(b, cap).log.last().len() >= 5
                + kind(cap).len() && decided(b, cap).log.last().take(5 + kind(cap).len() as int)
                == "DENY "@ + kind(cap),
        },
        decision(b.policy, cap) matches Err(VmErrorView::Denied(why)) ==> match cap {
            CapabilityView::Storage { max_kb } if max_kb > b.policy.storage_max_kb => why
                == "storage quota "@ + dec_chars(max_kb as nat) + "kb exceeds policy "@ + dec_chars(
                b.policy.storage_max_kb as nat,
            ) + "kb"@ && decided(b, cap).log.last() == "DENY storage quota "@ + dec_chars(
                max_kb as nat,
            ),
            _ => why == kind(cap) + " not granted"@ && decided(b, cap).log.last() == "DENY "@
                + kind(cap),
        },
{
    reveal_strlit("DENY ");
    reveal_strlit("storage");
    reveal_strlit(" quota ");
    reveal_strlit("DENY storage quota ");
    assert(decided(b, cap).log.drop_last() =~= b.log);
    let last = decided(b, cap).log.last();
    if decision(b.policy, cap) is Err {
        assert(last.take(5 + kind(cap).len() as int) =~= "DENY "@ + kind(cap));
    }
    if let CapabilityView::Storage { max_kb } = cap {
        assert("DENY "@ + "storage"@ + " quota "@ =~= "DENY storage quota "@);
    }
}

/// A list of capabilities is granted exactly where each of them is, each with
/// the grant that it gets by itself; else the first denial is the answer.
pub proof fn law_lists_are_decided_one_by_one(p: PolicyView, caps: Seq<CapabilityView>)
    ensures
        match all_decisions(p, caps) {
            Ok(grants) => grants.len() == caps.len() && forall|i: int|
                0 <= i < caps.len() ==> decision(p, #[trigger] caps[i]) == Ok::<
                    GrantView,
                    VmErrorView,
                >(grants[i]),
            Err(e) => exists|i: int|
                0 <= i < caps.len() && decision(p, #[trigger] caps[i]) == Err::<
                    GrantView,
                    VmErrorView,
                >(e) && forall|j: int| 0 <= j < i ==> decision(p, #[trigger] caps[j]) is Ok,
        },
    decreases caps.len(),
{
    if caps.len() > 0 {
        let rest = caps.skip(1);
        law_lists_are_decided_one_by_one(p, rest);
        if let Ok(g) = decision(p, caps[0]) {
            match all_decisions(p, rest) {
                Ok(more) => {
                    let grants = seq![g] + more;
                    assert forall|i: int| 0 <= i < caps.len() implies decision(
                        p,
                        #[trigger] caps[i],
                    ) == Ok::<GrantView, VmErrorView>(grants[i]) by {
                        if i > 0 {
                            assert(rest[i - 1] == caps[i]);
                        }
                    }
                },
                Err(e) => {
                    let i = choose|i: int|
                        0 <= i < rest.len() && decision(p, #[trigger] rest[i]) == Err::<
                            GrantView,
                            VmErrorView,
                        >(e) && forall|j: int| 0 <= j < i ==> decision(p, #[trigger] rest[j]) is Ok;
                    assert(caps[i + 1] == rest[i]);
                    assert forall|j: int| 0 <= j < i + 1 implies decision(
                        p,
                        #[trigger] caps[j],
                    ) is Ok by {
                        if j > 0 {
                            assert(rest[j - 1] == caps[j]);
                        }
                    }
                },
            }
        } else {
            assert(decision(p, caps[0]) is Err);
        }
    }
}

/// What a list leaves in the broker is what its capabilities leave one after
/// the other, up to the first that is denied.
pub proof fn law_lists_are_recorded_one_by_one(b: BrokerView, caps: Seq<CapabilityView>)
    ensures
        all_decisions(b.policy, caps) matches Ok(grants) ==> all_decided(b, caps).granted
            == b.granted + grants,
        all_decisions(b.policy, caps) is Ok ==> forall|cap: CapabilityView|
            all_decided(b, #[trigger] caps.push(cap)) == decided(all_decided(b, caps), cap),
        all_decisions(b.policy, caps) is Err ==> forall|cap: CapabilityView|
            all_decided(b, #[trigger] caps.push(cap)) == all_decided(b, caps),
        all_decided(b, caps).policy == b.policy,
        all_decided(b, Seq::empty()) == b,
    decreases caps.len(),
{
    if caps.len() == 0 {
        assert(b.granted + Seq::<GrantView>::empty() =~= b.granted);
        assert forall|cap: CapabilityView| all_decided(b, #[trigger] caps.push(cap)) == decided(
            all_decided(b, caps),
            cap,
        ) by {
            assert(caps.push(cap)[0] == cap);
            assert(caps.push(cap).skip(1) =~= Seq::empty());
            reveal_with_fuel(all_decided, 2);
        }
    } else {
        let next = decided(b, caps[0]);
        let rest = caps.skip(1);
        law_lists_are_recorded_one_by_one(next, rest);
        if let Ok(g) = decision(b.policy, caps[0]) {
            if let Ok(more) = all_decisions(b.policy, rest) {
                assert(b.granted.push(g) + more =~= b.granted + (seq![g] + more));
            }
        }
        assert forall|cap: CapabilityView| #![trigger caps.push(cap)]
            caps.push(cap).skip(1) == rest.push(cap) && caps.push(cap)[0] == caps[0] by {
            assert(caps.push(cap).skip(1) =~= rest.push(cap));
        }
    }
}

/// The text of an error names its kind and ends with its detail.
pub proof fn law_error_texts(why: Seq<char>)
    ensures
        error_text(VmErrorView::Denied(why)) == "denied: "@ + why,
        error_text(VmErrorView::NotImplemented(why)) == "not implemented: "@ + why,
        error_text(VmErrorView::Exhausted(why)) == "resource exhausted: "@ + why,
{
}

/// The policy that denies all grants no capability, and no storage.
pub proof fn law_nothing_is_granted_without_a_policy(cap: CapabilityView)
    ensures
        denying().allow.len() == 0,
        denying().storage_max_kb == 0,
        decision(denying(), cap) is Err,
{
}

/// A grant tells what was asked for: the storage in kilobytes, or the hosts,
/// quoted, in their order and parted by commas, or the capability's own name.
pub proof fn law_grants_tell_their_scope(p: PolicyView, cap: CapabilityView, host: Seq<char>)
    requires
        decision(p, cap) is Ok,
    ensures
        ({
            let scope = (decision(p, cap)->Ok_0).scope;
            match cap {
                CapabilityView::Storage { max_kb } => scope == "Storage { max_kb: "@ + dec_chars(
                    max_kb as nat,
                ) + " }"@,
                CapabilityView::Network { hosts } => {
                    let more = decision(p, CapabilityView::Network { hosts: hosts.push(host) });
                    &&& hosts.len() == 0 ==> scope == "Network { hosts: [] }"@ && more->Ok_0.scope
                        == "Network { hosts: ["@ + quoted(host) + "] }"@
                    &&& hosts.len() > 0 ==> more->Ok_0.scope == scope.take(scope.len() - 3) + ", "@
                        + quoted(host) + "] }"@
                    &&& more is Ok
                },
                CapabilityView::Notify => scope == "Notify"@,
                CapabilityView::Audio => scope == "Audio"@,
                CapabilityView::Camera => scope == "Camera"@,
                CapabilityView::Microphone => scope == "Microphone"@,
            }
        }),
{
    if let CapabilityView::Network { hosts } = cap {
        reveal_strlit("Network { hosts: [] }");
        reveal_strlit("Network { hosts: [");
        reveal_strlit("] }");
        let more = hosts.push(host);
        assert(all_quoted(more) =~= all_quoted(hosts).push(quoted(host)));
        crate::renderer::law_joined_texts(all_quoted(hosts), quoted(host), ", "@);
        let scope = scope_text(cap);
        if hosts.len() == 0 {
            assert(all_quoted(hosts) =~= Seq::<Seq<char>>::empty());
            assert(scope =~= "Network { hosts: [] }"@);
            assert(scope_text(CapabilityView::Network { hosts: more }) =~= "Network { hosts: ["@
                + quoted(host) + "] }"@);
        } else {
            assert(scope.take(scope.len() - 3) =~= "Network { hosts: ["@ + joined(
                all_quoted(hosts),
                ", "@,
            ));
            assert(scope_text(CapabilityView::Network { hosts: more }) =~= scope.take(
                scope.len() - 3,
            ) + ", "@ + quoted(host) + "] }"@);
        }
    }
}

} // verus!
