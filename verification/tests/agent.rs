use vasak_permissions::agent::{is_the_agent, AgentRegistry};
use vasak_permissions::protocol::AGENT_BINARY;

#[test]
fn only_the_installed_agent_binary_may_register() {
    let mut registry = AgentRegistry::default();

    assert!(registry
        .register(1000, "/home/someone/fake-agent", ":1.42".into(), "/x".into())
        .is_err());
    assert!(registry
        .register(1000, "/usr/bin/some-other-program", ":1.42".into(), "/x".into())
        .is_err());

    assert!(registry
        .register(1000, AGENT_BINARY, ":1.7".into(), "/x".into())
        .is_ok());
}

#[test]
fn a_restarted_agent_replaces_the_previous_one() {
    let mut registry = AgentRegistry::default();
    registry
        .register(1000, AGENT_BINARY, ":1.7".into(), "/x".into())
        .expect("first");
    registry
        .register(1000, AGENT_BINARY, ":1.9".into(), "/x".into())
        .expect("after restart");

    assert_eq!(registry.agent_for(1000).unwrap().unique_name, ":1.9");
}

#[test]
fn each_user_gets_their_own_agent() {
    let mut registry = AgentRegistry::default();
    registry
        .register(1000, AGENT_BINARY, ":1.7".into(), "/x".into())
        .expect("first user");
    registry
        .register(1001, AGENT_BINARY, ":1.8".into(), "/x".into())
        .expect("second user");

    assert_eq!(registry.agent_for(1000).unwrap().unique_name, ":1.7");
    assert_eq!(registry.agent_for(1001).unwrap().unique_name, ":1.8");
    assert!(registry.agent_for(1002).is_none());
}

#[test]
fn an_agent_that_disconnects_is_forgotten() {
    let mut registry = AgentRegistry::default();
    registry
        .register(1000, AGENT_BINARY, ":1.7".into(), "/x".into())
        .expect("register");

    registry.forget_connection(":1.7");

    assert!(
        registry.agent_for(1000).is_none(),
        "a stale name would make every later request wait for the timeout"
    );
}

#[test]
fn a_rejected_registration_says_who_was_rejected() {
    let mut registry = AgentRegistry::new();
    let error = registry
        .register(1000, "/tmp/vasak-permissions-agent", ":1.1".into(), "/x".into())
        .unwrap_err();
    assert_eq!(
        error,
        "solo /usr/bin/vasak-permissions-agent puede actuar como agente de permisos; \
         se rechazó /tmp/vasak-permissions-agent"
    );
    assert!(registry.agent_for(1000).is_none());
}

#[test]
fn forgetting_one_connection_keeps_the_others() {
    let mut registry = AgentRegistry::new();
    registry.register(1000, AGENT_BINARY, ":1.7".into(), "/a".into()).unwrap();
    registry.register(1001, AGENT_BINARY, ":1.8".into(), "/b".into()).unwrap();
    registry.forget_connection(":1.7");
    assert!(registry.agent_for(1000).is_none());
    let other = registry.agent_for(1001).unwrap();
    assert_eq!(other.unique_name, ":1.8");
    assert_eq!(other.object_path, "/b");
}

#[test]
fn only_the_exact_path_is_the_agent() {
    assert!(is_the_agent("/usr/bin/vasak-permissions-agent"));
    assert!(!is_the_agent("/home/ana/vasak-permissions-agent"));
    assert!(!is_the_agent("vasak-permissions-agent"));
    assert!(!is_the_agent("/usr/bin/vasak-permissions-agent "));
}
