//! The capability broker.

use nexus::content::{Capability, Props};
use nexus::webvm::{Backend, Broker, NullBackend, Policy, VmError};

#[test]
fn deny_by_default() {
    let mut b = Broker::new(Policy::deny_all());
    let r = b.check(&Capability::Notify);
    assert!(matches!(r, Err(VmError::Denied(_))));
    assert!(b.audit_log().iter().any(|l| l.starts_with("DENY")));
}

#[test]
fn allows_listed() {
    let mut b = Broker::new(Policy::allow_all_dev());
    assert!(b.check(&Capability::Notify).is_ok());
    assert!(b.check(&Capability::Camera).is_err());
}

#[test]
fn enforces_storage_quota() {
    let mut b = Broker::new(Policy::allow_all_dev());
    assert!(b.check(&Capability::Storage { max_kb: 512 }).is_ok());
    assert!(b.check(&Capability::Storage { max_kb: 99999 }).is_err());
}

#[test]
fn revoke_clears_grants() {
    let mut b = Broker::new(Policy::allow_all_dev());
    b.check(&Capability::Notify).unwrap();
    b.revoke_all();
    assert!(b.audit_log().iter().any(|l| l.contains("REVOKE")));
}

#[test]
fn null_backend_errors() {
    let mut n = NullBackend;
    assert!(n.run("x", &Props::Json("{}".into())).is_err());
}

#[test]
fn every_decision_is_logged_with_its_scope() {
    let mut b = Broker::new(Policy::allow_all_dev());
    let grant = b
        .check(&Capability::Network {
            hosts: vec!["a\"b".into()],
        })
        .unwrap();
    // The hosts stand in quotes, with escapes.
    assert!(grant.scope.contains("a\\\"b"), "{}", grant.scope);
    assert_eq!(b.audit_log().len(), 1);
    let all = b.check_all(&[Capability::Notify, Capability::Camera]);
    assert!(matches!(all, Err(VmError::Denied(_))));
    assert_eq!(b.audit_log().len(), 3);
}
