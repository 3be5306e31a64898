use vasak_permissions::protocol::{
    is_delegate, is_portal_key, may_request, portal_app_id, portal_key, scope_of, scoped_binaries, AccountResource, Decision, Resource, StoreArea,
    AGENT_BINARY, DELEGATE_BINARIES,
};

#[test]
fn resource_ids_survive_a_round_trip() {
    let resources = [
        Resource::Camera,
        Resource::Microphone,
        Resource::ScreenCapture,
        Resource::Location,
        Resource::InputCapture,
        Resource::Account(AccountResource::Email),
        Resource::Account(AccountResource::Calendar),
        Resource::Account(AccountResource::Contacts),
        Resource::Account(AccountResource::Chat),
        Resource::Account(AccountResource::Drive),
        Resource::Account(AccountResource::Tasks),
    ];

    for resource in resources {
        let id = resource.as_id();
        assert_eq!(
            Resource::from_id(&id),
            Some(resource.clone()),
            "id {id} did not round-trip"
        );
    }
}

#[test]
fn the_ids_are_the_ones_written_to_disk() {
    assert_eq!(Resource::Camera.as_id(), "camera");
    assert_eq!(Resource::ScreenCapture.as_id(), "screen-capture");
    assert_eq!(
        Resource::Account(AccountResource::Email).as_id(),
        "account.email"
    );
}

#[test]
fn an_unknown_id_is_rejected_rather_than_guessed() {
    assert_eq!(Resource::from_id("nonsense"), None);
    assert_eq!(Resource::from_id("account.nonsense"), None);
    assert_eq!(Resource::from_id("account."), None);
    assert_eq!(Resource::from_id(""), None);
}

#[test]
fn only_services_installed_by_the_system_may_ask_for_someone_else() {
    assert!(is_delegate("/usr/bin/vasak-accounts"));

    assert!(!is_delegate("/home/someone/.local/bin/vasak-accounts"));
    assert!(!is_delegate("/tmp/vasak-accounts"));
    assert!(!is_delegate("vasak-accounts"));
    assert!(!is_delegate("/usr/bin/anything-else"));
}

#[test]
fn deciding_the_camera_now_has_an_effect() {
    assert!(Resource::Camera.decision_has_effect());
    assert!(Resource::Microphone.decision_has_effect());
    assert!(Resource::Account(AccountResource::Email).decision_has_effect());
}

#[test]
fn deciding_what_nothing_enforces_still_has_none() {
    assert!(!Resource::ScreenCapture.decision_has_effect());
    assert!(!Resource::Location.decision_has_effect());
    assert!(!Resource::InputCapture.decision_has_effect());
}

#[test]
fn only_online_accounts_are_enforced_today() {
    assert!(Resource::Account(AccountResource::Email).is_enforceable());
    assert!(Resource::Account(AccountResource::Drive).is_enforceable());

    assert!(!Resource::Camera.is_enforceable());
    assert!(!Resource::Microphone.is_enforceable());
    assert!(!Resource::ScreenCapture.is_enforceable());
    assert!(!Resource::Location.is_enforceable());
    assert!(!Resource::InputCapture.is_enforceable());
}

#[test]
fn el_gestor_de_archivos_solo_llega_a_los_discos_en_la_nube() {
    let gestor = "/usr/bin/vasak-file-manager";

    assert!(may_request(gestor, "account.drive"));

    for prohibido in [
        "account.email",
        "account.calendar",
        "account.contacts",
        "account.chat",
        "account.tasks",
        "camera",
        "microphone",
        "credentials",
    ] {
        assert!(
            !may_request(gestor, prohibido),
            "el gestor de archivos no tenía que poder pedir '{prohibido}'"
        );
    }
}

#[test]
fn un_programa_que_no_figura_puede_pedir_cualquier_cosa() {
    for ajeno in [
        "/usr/bin/thunderbird",
        "/usr/bin/evolution",
        "/home/alguien/.local/bin/algo",
        "",
    ] {
        assert!(may_request(ajeno, "account.email"), "{ajeno}");
        assert!(may_request(ajeno, "camera"), "{ajeno}");
        assert_eq!(scope_of(ajeno), None, "{ajeno} no debería tener alcance");
    }
}

#[test]
fn el_bucle_de_correo_solo_llega_al_correo() {
    let sync = "/usr/bin/vasak-accounts-sync";

    assert!(may_request(sync, "account.email"));
    for prohibido in [
        "account.calendar",
        "account.contacts",
        "account.drive",
        "account.chat",
        "credentials",
    ] {
        assert!(!may_request(sync, prohibido), "no tenía que poder pedir '{prohibido}'");
    }
}

#[test]
fn el_calendario_no_llega_a_los_contactos() {
    let calendario = "/usr/bin/vasak-calendar";

    assert!(may_request(calendario, "account.calendar"));
    for prohibido in [
        "account.contacts",
        "account.email",
        "account.drive",
        "account.chat",
        "account.tasks",
        "credentials",
    ] {
        assert!(!may_request(calendario, prohibido), "no tenía que poder pedir '{prohibido}'");
    }
}

#[test]
fn los_contactos_no_llegan_al_calendario() {
    let contactos = "/usr/bin/vasak-contacts";

    assert!(may_request(contactos, "account.contacts"));
    for prohibido in [
        "account.calendar",
        "account.email",
        "account.drive",
        "account.chat",
        "account.tasks",
        "credentials",
    ] {
        assert!(!may_request(contactos, prohibido), "no tenía que poder pedir '{prohibido}'");
    }
}

#[test]
fn el_correo_no_puede_pedir_ni_el_correo() {
    let correo = "/usr/bin/vasak-mail";

    assert_eq!(scope_of(correo).as_deref(), Some(&[][..]));
    for recurso in [
        "account.email",
        "account.contacts",
        "account.calendar",
        "account.drive",
        "credentials",
    ] {
        assert!(!may_request(correo, recurso), "no tenía que poder pedir '{recurso}'");
    }
}

#[test]
fn configuracion_no_puede_pedir_nada() {
    let configuracion = "/usr/bin/vasak-settings";

    assert_eq!(scope_of(configuracion).as_deref(), Some(&[][..]));
    for recurso in [
        "account.email",
        "account.drive",
        "account.calendar",
        "camera",
        "microphone",
        "credentials",
    ] {
        assert!(
            !may_request(configuracion, recurso),
            "configuración no tenía que poder pedir '{recurso}'"
        );
    }
}

#[test]
fn el_alcance_vacio_no_le_impide_administrar_a_otros() {
    assert!(may_request("/usr/bin/vasak-file-manager", "account.drive"));
    assert!(may_request("/usr/bin/thunderbird", "account.email"));
}

#[test]
fn tener_alcance_no_es_tener_permiso() {
    assert!(may_request("/usr/bin/vasak-file-manager", "account.drive"));
    assert_eq!(
        scope_of("/usr/bin/vasak-file-manager").as_deref(),
        Some(&["account.drive"][..]),
    );
}

#[test]
fn todos_los_recursos_de_la_lista_existen() {
    for (binario, alcance) in scoped_binaries() {
        for id in &alcance {
            let recurso = Resource::from_id(id);
            assert!(
                recurso.is_some(),
                "'{id}' del alcance de {binario} no es un recurso conocido"
            );
            assert_eq!(
                recurso.unwrap().as_id(),
                *id,
                "'{id}' no es la forma canónica del recurso"
            );
        }
    }
}

#[test]
fn las_rutas_de_la_lista_estan_donde_solo_root_escribe() {
    for (binario, _) in scoped_binaries() {
        assert!(
            binario.starts_with("/usr/bin/"),
            "{binario} no está en /usr/bin"
        );
    }
}

#[test]
fn no_hay_binarios_repetidos_en_la_lista() {
    let mut vistos = std::collections::BTreeSet::new();
    for (binario, _) in scoped_binaries() {
        assert!(vistos.insert(binario), "{binario} está dos veces");
    }
}

#[test]
fn account_capabilities_read_back_from_their_ids() {
    for capability in [
        AccountResource::Email,
        AccountResource::Calendar,
        AccountResource::Contacts,
        AccountResource::Chat,
        AccountResource::Drive,
        AccountResource::Tasks,
    ] {
        assert_eq!(AccountResource::from_id(capability.as_id()), Some(capability));
    }
    assert_eq!(AccountResource::from_id("Email"), None);
}

#[test]
fn decisions_have_the_ids_written_to_disk() {
    assert_eq!(Decision::Allowed.as_id(), "allowed");
    assert_eq!(Decision::Denied.as_id(), "denied");
    assert_eq!(Decision::Unknown.as_id(), "unknown");
    assert_eq!(Decision::from_answer(true), Decision::Allowed);
    assert_eq!(Decision::from_answer(false), Decision::Denied);
    assert!(Decision::Allowed.is_allowed());
    assert!(!Decision::Unknown.is_allowed());
}

#[test]
fn the_delegates_and_the_agent_live_under_usr_bin() {
    for delegate in DELEGATE_BINARIES {
        assert!(delegate.starts_with("/usr/bin/"));
        assert!(is_delegate(delegate));
    }
    assert!(AGENT_BINARY.starts_with("/usr/bin/"));
    assert!(!is_delegate(AGENT_BINARY));
}

#[test]
fn the_store_areas_have_ids_of_their_own() {
    for (area, id) in [
        (StoreArea::Email, "store.email"),
        (StoreArea::Calendar, "store.calendar"),
        (StoreArea::Contacts, "store.contacts"),
    ] {
        assert_eq!(Resource::Store(area).as_id(), id);
        assert_eq!(Resource::from_id(id), Some(Resource::Store(area)));
        assert!(Resource::Store(area).decision_has_effect());
    }
    assert_eq!(Resource::from_id("store.algo"), None);
    assert_eq!(Resource::from_id("store."), None);
}

#[test]
fn the_sync_loop_and_wireplumber_are_delegates_for_their_own_user() {
    assert!(is_delegate("/usr/bin/vasak-accounts-sync"));
    assert!(is_delegate("/usr/bin/wireplumber"));
    assert!(!is_delegate("/home/alguien/.local/bin/vasak-accounts-sync"));
    assert!(!is_delegate("/tmp/vasak-accounts-sync"));
    assert!(!is_delegate("/usr/bin/vasak-mail"));
}

#[test]
fn a_portal_identity_is_its_own_namespace() {
    assert_eq!(portal_key(""), None);
    let key = portal_key("com.google.Chrome").unwrap();
    assert_eq!(key, "portal:com.google.Chrome");
    assert!(is_portal_key(&key));
    assert!(!is_portal_key("/usr/bin/google-chrome"));
    assert_eq!(portal_app_id(&key), Some("com.google.Chrome".to_string()));
    assert_eq!(portal_app_id("/usr/bin/x"), None);
}
