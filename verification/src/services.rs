//! The fixed list of launchd services the tool manages.
//!
//! There is no discovery: the list below is the whole contract. Adding a
//! label is a one-entry change to `services`.

use vstd::prelude::*;

verus! {

/// Whether a launchd service lives in the system domain (root) or the
/// per-user GUI domain.
#[derive(Debug, Clone, Copy, PartialEq, Eq, Structural)]
pub enum Scope {
    /// `system/<label>`: needs root.
    System,
    /// `gui/<uid>/<label>`: runs in the user's session.
    User,
}

/// The scope's name as the tool prints it.
pub open spec fn scope_name(s: Scope) -> Seq<char> {
    match s {
        Scope::System => "system"@,
        Scope::User => "user"@,
    }
}

/// The directory that holds a service's plist for the scope.
pub open spec fn scope_plist_dir(s: Scope) -> Seq<char> {
    match s {
        Scope::System => "/Library/LaunchDaemons"@,
        Scope::User => "/Library/LaunchAgents"@,
    }
}

impl Scope {
    pub fn as_str(self) -> (r: &'static str)
        ensures
            r@ == scope_name(self),
    {
        match self {
            Scope::System => "system",
            Scope::User => "user",
        }
    }

    /// Directory under which a service of this scope keeps its plist.
    pub fn plist_dir(self) -> (r: &'static str)
        ensures
            r@ == scope_plist_dir(self),
    {
        match self {
            Scope::System => "/Library/LaunchDaemons",
            Scope::User => "/Library/LaunchAgents",
        }
    }
}

/// A launchd service the tool knows how to toggle.
#[derive(Debug, Clone, Copy)]
pub struct Service {
    pub label: &'static str,
    pub scope: Scope,
}

/// The conventional plist path of a service: `<dir>/<label>.plist`.
pub open spec fn plist_path_of(label: Seq<char>, scope: Scope) -> Seq<char> {
    scope_plist_dir(scope) + "/"@ + label + ".plist"@
}

impl Service {
    /// `/Library/LaunchDaemons/<label>.plist` for system services,
    /// `/Library/LaunchAgents/<label>.plist` for user services.
    pub fn plist_path(&self) -> (r: String)
        ensures
            r@ == plist_path_of(self.label@, self.scope),
    {
        let mut p = String::from_str(self.scope.plist_dir());
        p.append("/");
        p.append(self.label);
        p.append(".plist");
        p
    }
}

/// Width to which labels are padded in the summary; it fits the longest label.
pub const LABEL_PAD: usize = 32;

/// The managed services, as (label, scope) pairs, in the order they are handled.
///
/// `com.zscaler.preloginui` is deliberately absent: it only runs in the
/// login window, a domain a user-session shell cannot read or write.
pub open spec fn managed() -> Seq<(Seq<char>, Scope)> {
    seq![
        ("com.zscaler.tunnel"@, Scope::System),
        ("com.zscaler.service"@, Scope::System),
        ("com.zscaler.UPMServiceController"@, Scope::System),
        ("com.zscaler.tray"@, Scope::User),
    ]
}

/// The full set of services the tool operates on.
pub fn services() -> (r: Vec<Service>)
    ensures
        r@.len() == managed().len(),
        forall|i: int|
            0 <= i < r@.len() ==> (#[trigger] r@[i].label@, r@[i].scope) == managed()[i],
{
    let r = vec![
        Service { label: "com.zscaler.tunnel", scope: Scope::System },
        Service { label: "com.zscaler.service", scope: Scope::System },
        Service { label: "com.zscaler.UPMServiceController", scope: Scope::System },
        Service { label: "com.zscaler.tray", scope: Scope::User },
    ];
    r
}

/// Some managed service lives in the system domain.
pub open spec fn any_system_service() -> bool {
    exists|i: int| 0 <= i < managed().len() && (#[trigger] managed()[i]).1 == Scope::System
}

/// True if any system-scope service is managed.
pub fn has_system_services() -> (r: bool)
    ensures
        r == any_system_service(),
{
    let list = services();
    let n = list.len();
    let mut i: usize = 0;
    while i < n
        invariant
            n == list@.len(),
            n == managed().len(),
            i <= n,
            forall|j: int| 0 <= j < list@.len() ==> (#[trigger] list@[j].label@, list@[j].scope) == managed()[j],
            forall|j: int| 0 <= j < i ==> (#[trigger] managed()[j]).1 != Scope::System,
        decreases n - i,
    {
        if list[i].scope == Scope::System {
            assert((list@[i as int].label@, list@[i as int].scope) == managed()[i as int]);
            return true;
        }
        assert((list@[i as int].label@, list@[i as int].scope) == managed()[i as int]);
        i = i + 1;
    }
    false
}

/// The list of managed services is not empty.
pub proof fn law_services_nonempty()
    ensures
        managed().len() > 0,
{
}

/// The label lengths, which tell the labels apart.
proof fn lemma_label_lengths()
    ensures
        managed()[0].0.len() == 18,
        managed()[1].0.len() == 19,
        managed()[2].0.len() == 32,
        managed()[3].0.len() == 16,
{
    reveal_strlit("com.zscaler.tunnel");
    reveal_strlit("com.zscaler.service");
    reveal_strlit("com.zscaler.UPMServiceController");
    reveal_strlit("com.zscaler.tray");
}

/// No two managed services share a label.
pub proof fn law_labels_unique()
    ensures
        forall|i: int, j: int|
            0 <= i < managed().len() && 0 <= j < managed().len() && i != j
                ==> (#[trigger] managed()[i]).0 != (#[trigger] managed()[j]).0,
{
    lemma_label_lengths();
    assert forall|i: int, j: int|
        0 <= i < managed().len() && 0 <= j < managed().len() && i != j implies (
        #[trigger] managed()[i]).0 != (#[trigger] managed()[j]).0 by {
        assert(managed()[i].0.len() != managed()[j].0.len());
    }
}

/// The login-window service is never managed.
pub proof fn law_preloginui_unmanaged()
    ensures
        forall|i: int|
            0 <= i < managed().len() ==> (#[trigger] managed()[i]).0
                != "com.zscaler.preloginui"@,
{
    lemma_label_lengths();
    reveal_strlit("com.zscaler.preloginui");
    assert forall|i: int| 0 <= i < managed().len() implies (#[trigger] managed()[i]).0
        != "com.zscaler.preloginui"@ by {
        assert(managed()[i].0.len() != "com.zscaler.preloginui"@.len());
    }
}

/// Some managed service needs root.
pub proof fn law_has_system_service()
    ensures
        any_system_service(),
{
    assert(managed()[0].1 == Scope::System);
}

/// Every label fits the summary's label column.
pub proof fn law_labels_fit_pad()
    ensures
        forall|i: int|
            0 <= i < managed().len() ==> (#[trigger] managed()[i]).0.len() <= LABEL_PAD,
{
    lemma_label_lengths();
}

} // verus!
