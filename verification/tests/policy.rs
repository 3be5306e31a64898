use vasak_permissions::policy::{PolicyStore, UserPolicy, POLICY_DIR};
use vasak_permissions::protocol::{Application, Decision, Provenance};

fn application(path: &str) -> Application {
    Application {
        binary_path: path.to_string(),
        display_name: "Test".into(),
        provenance: Provenance::SystemInstalled,
    }
}

#[test]
fn lo_que_esta_fuera_del_alcance_no_llega_a_la_pantalla() {
    let gestor = "/usr/bin/vasak-file-manager";
    let mut politica = UserPolicy::default();

    politica.record(&application(gestor), "account.drive", Decision::Allowed, true);
    politica.record(&application(gestor), "account.email", Decision::Allowed, true);

    let entrada = politica
        .entries()
        .into_iter()
        .find(|e| e.application.binary_path == gestor)
        .expect("la aplicación tiene que seguir figurando");

    assert!(entrada.decisions.contains_key("account.drive"));
    assert!(
        !entrada.decisions.contains_key("account.email"),
        "no puede mostrarse un permiso que decide() niega igual"
    );

    assert!(politica.decision(gestor, "account.email").is_allowed());
}

#[test]
fn un_programa_sin_alcance_muestra_todas_sus_decisiones() {
    let ajeno = "/home/alguien/.local/bin/algo";
    let mut politica = UserPolicy::default();
    politica.record(&application(ajeno), "account.email", Decision::Allowed, true);
    politica.record(&application(ajeno), "camera", Decision::Denied, true);

    let entrada = politica.entries().into_iter().next().unwrap();
    assert_eq!(entrada.decisions.len(), 2);
}

#[test]
fn se_recuerda_si_el_programa_pregunta() {
    let mut politica = UserPolicy::default();
    politica.record(&application("/usr/bin/vasak-connect"), "camera", Decision::Allowed, true);
    politica.record(&application("/home/x/a.AppImage"), "camera", Decision::Denied, false);

    let entradas = politica.entries();
    let pregunta = |ruta: &str| {
        entradas.iter().find(|e| e.application.binary_path == ruta).unwrap().asks
    };
    assert!(pregunta("/usr/bin/vasak-connect"));
    assert!(!pregunta("/home/x/a.AppImage"));
}

#[test]
fn fijar_la_decision_a_mano_no_lo_degrada() {
    let mut politica = UserPolicy::default();
    let app = application("/usr/bin/vasak-connect");
    politica.record(&app, "camera", Decision::Allowed, true);
    politica.record(&app, "camera", Decision::Denied, false);

    assert!(politica.entries()[0].asks, "dejó de figurar como que pregunta");
    assert_eq!(politica.decision("/usr/bin/vasak-connect", "camera"), Decision::Denied);
}

#[test]
fn a_program_nobody_decided_on_is_unknown_not_denied() {
    let policy = UserPolicy::default();
    assert_eq!(
        policy.decision("/usr/bin/anything", "camera"),
        Decision::Unknown,
        "unknown is what makes the service ask; denied would silently refuse forever"
    );
}

#[test]
fn an_answer_replaces_the_previous_one() {
    let mut policy = UserPolicy::default();
    let app = application("/usr/bin/meet");

    policy.record(&app, "camera", Decision::Allowed, false);
    assert_eq!(policy.decision("/usr/bin/meet", "camera"), Decision::Allowed);

    policy.record(&app, "camera", Decision::Denied, false);
    assert_eq!(policy.decision("/usr/bin/meet", "camera"), Decision::Denied);
    assert_eq!(policy.entries().len(), 1, "still one entry for the program");
}

#[test]
fn resources_are_decided_one_at_a_time() {
    let mut policy = UserPolicy::default();
    let app = application("/usr/bin/meet");

    policy.record(&app, "camera", Decision::Allowed, false);

    assert_eq!(policy.decision("/usr/bin/meet", "camera"), Decision::Allowed);
    assert_eq!(
        policy.decision("/usr/bin/meet", "microphone"),
        Decision::Unknown
    );
}

#[test]
fn forgetting_a_program_makes_it_ask_again() {
    let mut policy = UserPolicy::default();
    policy.record(&application("/usr/bin/meet"), "camera", Decision::Denied, false);

    assert!(policy.forget("/usr/bin/meet"));
    assert_eq!(
        policy.decision("/usr/bin/meet", "camera"),
        Decision::Unknown
    );
    assert!(!policy.forget("/usr/bin/meet"), "already gone");
}

#[test]
fn users_do_not_share_a_policy() {
    let store = PolicyStore::at("/var/lib/vasak-permissions".to_string());
    assert_ne!(store.path_for(1000), store.path_for(1001));
    assert_eq!(store.path_for(1000), "/var/lib/vasak-permissions/1000.json");
}

#[test]
fn a_missing_file_is_simply_an_empty_policy() {
    assert!(UserPolicy::default().entries().is_empty());
}

#[test]
fn the_store_lives_where_only_root_writes() {
    assert_eq!(PolicyStore::new().directory(), POLICY_DIR);
    assert_eq!(PolicyStore::from_environment().directory(), "/var/lib/vasak-permissions");
    assert_eq!(PolicyStore::new().path_for(0), "/var/lib/vasak-permissions/0.json");
    assert_eq!(
        PolicyStore::new().path_for(4294967295),
        "/var/lib/vasak-permissions/4294967295.json"
    );
}

#[test]
fn a_directory_with_a_trailing_slash_gets_no_second_one() {
    assert_eq!(PolicyStore::at("/tmp/x/".to_string()).path_for(7), "/tmp/x/7.json");
    assert_eq!(PolicyStore::at(String::new()).path_for(7), "7.json");
}

#[test]
fn entries_come_in_path_order_with_the_stored_names() {
    let mut policy = UserPolicy::default();
    let mut b = application("/usr/bin/b");
    b.display_name = "Bee".into();
    policy.record(&b, "camera", Decision::Allowed, false);
    policy.record(&application("/usr/bin/a"), "microphone", Decision::Denied, false);
    let entries = policy.entries();
    assert_eq!(entries.len(), 2);
    assert_eq!(entries[0].application.binary_path, "/usr/bin/a");
    assert_eq!(entries[1].application.binary_path, "/usr/bin/b");
    assert_eq!(entries[1].application.display_name, "Bee");
    assert_eq!(entries[1].decisions.obtener("camera"), Some(&Decision::Allowed));
}
