use vasak_permissions::protocol::{Decision, Resource};
use vasak_permissions::policy::UserPolicy;
use vasak_permissions::protocol::{portal_key, Application, Provenance};
use vasak_permissions::servicio::{
    avanzar, avanzar_cambio, check_change, check_resource, contestar_sin_preguntar, empezar,
    lectura_necesaria, preparar_cambio, Accion, Cambio, ChangeRejection, Etapa, Evento,
    PasoDelCambio, ResourceRejection,
};

#[test]
fn the_service_turns_away_what_it_cannot_honour() {
    assert_eq!(check_resource("camera", "/usr/bin/x"), Ok(Resource::Camera));
    assert_eq!(
        check_resource("screen-capture", "/usr/bin/x"),
        Err(ResourceRejection::NotEnforceable)
    );
    assert_eq!(check_resource("store.algo", "/usr/bin/x"), Err(ResourceRejection::Unknown));
}

#[test]
fn el_servicio_acepta_los_recursos_del_almacen() {
    for id in ["store.email", "store.calendar", "store.contacts"] {
        assert!(check_resource(id, "/usr/bin/vasak-contacts").is_ok(), "{id} no se acepta");
    }
}

#[test]
fn el_servicio_rechaza_lo_que_no_es_del_almacen() {
    assert_eq!(
        check_resource("store.algo", "/usr/bin/vasak-contacts"),
        Err(ResourceRejection::Unknown)
    );
    let key = portal_key("com.google.Chrome").expect("identidad válida");
    assert_eq!(
        check_resource("store.contacts", &key),
        Err(ResourceRejection::NotEnforceable)
    );
}

#[test]
fn a_screen_capture_counts_against_a_portal_identity() {
    let key = portal_key("com.google.Chrome").unwrap();
    assert_eq!(check_resource("screen-capture", &key), Ok(Resource::ScreenCapture));
    assert_eq!(check_resource("camera", &key), Ok(Resource::Camera));
    assert_eq!(
        check_resource("microphone", &key),
        Err(ResourceRejection::NotEnforceable)
    );
}

#[test]
fn allowing_out_of_scope_is_refused_but_denying_is_not() {
    assert_eq!(
        check_change("/usr/bin/vasak-file-manager", "account.email", true),
        Err(ChangeRejection::OutOfScope)
    );
    assert!(check_change("/usr/bin/vasak-file-manager", "account.email", false).is_ok());
    assert_eq!(
        check_change("/usr/bin/x", "location", true),
        Err(ChangeRejection::Resource(ResourceRejection::NotEnforceable))
    );
}

#[test]
fn out_of_scope_is_refused_without_asking() {
    assert_eq!(
        empezar("/usr/bin/vasak-settings", "account.email"),
        (Etapa::Terminada, Accion::Contestar(false))
    );
    assert_eq!(
        empezar("/usr/bin/thunderbird", "account.email"),
        (Etapa::Leyendo, Accion::LeerPolitica)
    );
}

#[test]
fn a_stored_answer_is_given_without_asking() {
    assert_eq!(
        avanzar(Etapa::Leyendo, Evento::Leida(Some(Decision::Allowed))),
        (Etapa::Terminada, Accion::Contestar(true))
    );
    assert_eq!(
        avanzar(Etapa::Leyendo, Evento::Leida(Some(Decision::Denied))),
        (Etapa::Terminada, Accion::Contestar(false))
    );
    assert_eq!(
        avanzar(Etapa::Leyendo, Evento::Leida(None)),
        (Etapa::Terminada, Accion::Fallar)
    );
}

#[test]
fn an_unanswered_question_goes_all_the_way() {
    let (etapa, accion) = avanzar(Etapa::Leyendo, Evento::Leida(Some(Decision::Unknown)));
    assert_eq!(accion, Accion::PedirCupo);
    let (etapa, accion) = avanzar(etapa, Evento::Cupo(true));
    assert_eq!(accion, Accion::Preguntar);
    let (etapa, accion) = avanzar(etapa, Evento::Respuesta(Some(false)));
    assert_eq!(accion, Accion::Anotar(Decision::Denied));
    assert_eq!(avanzar(etapa, Evento::Guardada(true)), (Etapa::Terminada, Accion::Contestar(false)));
}

#[test]
fn nobody_to_ask_refuses_and_gives_the_slot_back() {
    assert_eq!(
        avanzar(Etapa::Preguntando, Evento::Respuesta(None)),
        (Etapa::Terminada, Accion::DevolverCupoYNegar)
    );
    assert_eq!(
        avanzar(Etapa::PidiendoCupo, Evento::Cupo(false)),
        (Etapa::Terminada, Accion::Contestar(false))
    );
    assert_eq!(
        avanzar(Etapa::Anotando(Decision::Allowed), Evento::Guardada(false)),
        (Etapa::Terminada, Accion::Fallar)
    );
    assert_eq!(
        avanzar(Etapa::Terminada, Evento::Cupo(true)),
        (Etapa::Terminada, Accion::Fallar)
    );
}

#[test]
fn a_question_without_asking_notes_only_the_undecided() {
    assert!(!lectura_necesaria("/usr/bin/vasak-mail", "account.email"));
    assert_eq!(
        contestar_sin_preguntar("/usr/bin/vasak-mail", "account.email", Decision::Allowed),
        (Decision::Denied, false)
    );
    assert_eq!(
        contestar_sin_preguntar("/usr/bin/x", "camera", Decision::Unknown),
        (Decision::Unknown, true)
    );
    assert_eq!(
        contestar_sin_preguntar("/usr/bin/x", "camera", Decision::Denied),
        (Decision::Denied, false)
    );
}

fn aplicacion(ruta: &str) -> Application {
    Application {
        binary_path: ruta.to_string(),
        display_name: "Prueba".into(),
        provenance: Provenance::SystemInstalled,
    }
}

#[test]
fn a_change_gives_what_was_allowed_before_and_after() {
    let mut politica = UserPolicy::default();
    let app = aplicacion("/usr/bin/prueba");
    politica.record(&app, "microphone", Decision::Allowed, true);

    let (antes, ahora) = preparar_cambio(&mut politica, &app, "camera", true);
    assert_eq!(antes, vec![Resource::Microphone]);
    assert_eq!(ahora, vec![Resource::Camera, Resource::Microphone]);
    assert!(politica.decision("/usr/bin/prueba", "camera").is_allowed());

    let (antes, ahora) = preparar_cambio(&mut politica, &app, "microphone", false);
    assert_eq!(antes, vec![Resource::Camera, Resource::Microphone]);
    assert_eq!(ahora, vec![Resource::Camera]);
}

#[test]
fn a_change_to_a_resource_not_in_the_profiles_leaves_them_alone() {
    let mut politica = UserPolicy::default();
    let app = aplicacion("/usr/bin/prueba");
    let (antes, ahora) = preparar_cambio(&mut politica, &app, "location", true);
    assert!(antes.is_empty());
    assert!(ahora.is_empty());
    assert!(politica.decision("/usr/bin/prueba", "location").is_allowed());
}

#[test]
fn a_change_is_applied_before_it_is_saved() {
    assert_eq!(avanzar_cambio(Cambio::Aplicando, true), (Cambio::Guardando, PasoDelCambio::Guardar));
    assert_eq!(avanzar_cambio(Cambio::Aplicando, false), (Cambio::Terminado, PasoDelCambio::NoSeAplico));
    assert_eq!(avanzar_cambio(Cambio::Guardando, true), (Cambio::Terminado, PasoDelCambio::Listo));
    assert_eq!(avanzar_cambio(Cambio::Guardando, false), (Cambio::Deshaciendo, PasoDelCambio::Deshacer));
    assert_eq!(avanzar_cambio(Cambio::Deshaciendo, true), (Cambio::Terminado, PasoDelCambio::NoSeGuardo));
}

#[test]
fn a_scope_narrows_and_never_grants() {
    for id in ["camera", "account.email", "account.drive", "microphone"] {
        assert_eq!(
            empezar("/usr/bin/vasak-settings", id),
            (Etapa::Terminada, Accion::Contestar(false)),
            "the settings screen asked for {id}"
        );
    }
    assert_eq!(
        empezar("/usr/bin/vasak-file-manager", "account.drive"),
        (Etapa::Leyendo, Accion::LeerPolitica)
    );
    assert_eq!(
        empezar("/home/x/.local/bin/herramienta", "account.email"),
        (Etapa::Leyendo, Accion::LeerPolitica)
    );
}
