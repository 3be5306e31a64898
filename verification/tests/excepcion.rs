use vasak_permissions::excepcion::{
    archivo_de_excepcion, empezar_a_aplicar, seguir_aplicando, Aplicando, PasoAlDisco, negaciones, nombre_de, perfil_para, permitidos_de, que_aplicar, Aplicacion,
    Motivo, DIRECTORIO,
};
use vasak_permissions::policy::UserPolicy;
use vasak_permissions::protocol::{Application, Decision, Provenance, Resource};

fn una_app(ruta: &str) -> Application {
    Application {
        binary_path: ruta.to_string(),
        display_name: "prueba".into(),
        provenance: Provenance::Unverified,
    }
}

fn reglas_de(recurso: Resource) -> Vec<&'static str> {
    negaciones().into_iter().find(|(r, _)| *r == recurso).unwrap().1
}

#[test]
fn permitir_credenciales_levanta_todas_sus_negaciones() {
    let con = perfil_para("/home/x/a.AppImage", &[Resource::Credentials]).unwrap();
    assert!(!con.contains(".ssh"), "quedó negado ~/.ssh");
    assert!(!con.contains(".gnupg"));
    assert!(!con.contains("ssh-agent"));
    assert!(!con.contains("vasak-keyring"));
    assert!(con.contains("deny /dev/video*"));
}

#[test]
fn sin_permiso_se_niegan_todas_las_credenciales() {
    let sin = perfil_para("/home/x/a.AppImage", &[Resource::Camera]).unwrap();
    for regla in reglas_de(Resource::Credentials) {
        assert!(sin.contains(regla), "falta en el perfil: {regla}");
    }
}

#[test]
fn el_agente_va_con_la_clave() {
    let reglas = reglas_de(Resource::Credentials);
    assert!(reglas.iter().any(|r| r.contains(".ssh/")));
    assert!(reglas.iter().any(|r| r.contains("ssh-agent.socket")));
}

#[test]
fn las_negaciones_de_archivo_cubren_el_enlace_duro() {
    for regla in reglas_de(Resource::Credentials).iter().filter(|r| r.contains("@{HOME}")) {
        assert!(regla.contains("rwkl,"), "sin enlace duro: {regla}");
    }
}

#[test]
fn lo_permitido_se_lee_de_la_politica_entera() {
    let mut politica = UserPolicy::default();
    let app = una_app("/home/x/a.AppImage");
    politica.record(&app, "camera", Decision::Allowed, false);
    politica.record(&app, "microphone", Decision::Denied, false);

    let permitidos = permitidos_de(&politica, "/home/x/a.AppImage");
    assert_eq!(permitidos, vec![Resource::Camera]);
}

#[test]
fn una_aplicacion_sin_nada_decidido_no_tiene_permitido_nada() {
    let politica = UserPolicy::default();
    assert!(permitidos_de(&politica, "/home/x/a.AppImage").is_empty());
}

#[test]
fn los_recursos_que_apparmor_no_niega_no_entran() {
    let mut politica = UserPolicy::default();
    let app = una_app("/home/x/a.AppImage");
    politica.record(&app, "screen-capture", Decision::Allowed, false);
    politica.record(&app, "account.email", Decision::Allowed, false);

    assert!(permitidos_de(&politica, "/home/x/a.AppImage").is_empty());
}

#[test]
fn el_perfil_engancha_la_ruta_exacta_y_no_niega_nada() {
    let perfil = perfil_para(
        "/home/alguien/Apps/cosa.AppImage",
        &[Resource::Camera, Resource::Microphone],
    )
    .unwrap();
    assert!(perfil.contains(r#""/home/alguien/Apps/cosa.AppImage""#));
    assert!(perfil.contains("file,"));
}

#[test]
fn una_ruta_con_espacios_se_acepta_y_queda_entre_comillas() {
    let perfil = perfil_para(
        "/home/pato/Apps/App Monitor_0.1.0.AppImage",
        &[Resource::Camera, Resource::Microphone],
    )
    .unwrap();
    assert!(perfil.contains(r#""/home/pato/Apps/App Monitor_0.1.0.AppImage""#));
}

#[test]
fn permitir_uno_no_permite_el_otro() {
    let solo_camara = perfil_para("/home/x/a.AppImage", &[Resource::Camera]).unwrap();
    assert!(
        !solo_camara.contains("/dev/video"),
        "sigue negando la cámara, que es lo que se permitió"
    );
    assert!(
        solo_camara.contains("deny /dev/snd/pcmC*D*c"),
        "dejó de negar el micrófono, que nadie permitió"
    );
}

#[test]
fn permitir_el_microfono_es_simetrico() {
    let solo_micro = perfil_para("/home/x/a.AppImage", &[Resource::Microphone]).unwrap();
    assert!(solo_micro.contains("deny /dev/video*"));
    assert!(!solo_micro.contains("/dev/snd"));
}

#[test]
fn una_excepcion_vacia_no_concede_nada() {
    let ninguno = perfil_para("/home/x/a.AppImage", &[]).unwrap();
    assert!(ninguno.contains("deny /dev/video*"));
    assert!(ninguno.contains("deny /dev/snd/pcmC*D*c"));
}

#[test]
fn permitirlo_todo_no_deja_ninguna_negacion() {
    let todos: Vec<Resource> = negaciones().iter().map(|(r, _)| *r).collect();
    let completo = perfil_para("/home/x/a.AppImage", &todos).unwrap();
    assert!(
        !completo.contains("deny"),
        "quedó una negación con todo permitido:\n{completo}"
    );
}

#[test]
fn una_excepcion_vacia_niega_todo_lo_de_la_tabla() {
    let ninguno = perfil_para("/home/x/a.AppImage", &[]).unwrap();
    for (_, reglas) in negaciones() {
        for regla in reglas {
            assert!(ninguno.contains(regla), "falta en el perfil: {regla}");
        }
    }
}

#[test]
fn las_rutas_con_comodines_se_rechazan() {
    for ruta in [
        "/home/x/todo*.AppImage",
        "/home/x/cosa?.AppImage",
        "/home/x/[ab].AppImage",
        "/home/x/{a,b}.AppImage",
    ] {
        assert!(
            matches!(perfil_para(ruta, &[]), Err(Motivo::CaracterAmbiguo(_))),
            "se aceptó una ruta con comodín: {ruta}"
        );
    }
}

#[test]
fn las_rutas_que_romperian_la_sintaxis_se_rechazan() {
    assert!(perfil_para("/home/x/co\"sa.AppImage", &[]).is_err());
    assert!(perfil_para("/home/x/co\\sa.AppImage", &[Resource::Camera, Resource::Microphone]).is_err());
    assert!(perfil_para("/home/x/dos\nlineas", &[Resource::Camera, Resource::Microphone]).is_err());
}

#[test]
fn una_ruta_relativa_no_sirve_de_enganche() {
    assert_eq!(
        perfil_para("cosa.AppImage", &[Resource::Camera, Resource::Microphone]),
        Err(Motivo::NoEsAbsoluta)
    );
    assert_eq!(
        perfil_para("", &[Resource::Camera, Resource::Microphone]),
        Err(Motivo::NoEsAbsoluta)
    );
}

#[test]
fn rutas_distintas_dan_nombres_distintos() {
    let a = nombre_de("/a/b");
    let b = nombre_de("/a_b");
    assert_ne!(a, b, "dos rutas distintas colisionaron en el mismo nombre");

    let con_espacio = nombre_de("/x/App Monitor");
    let con_guion = nombre_de("/x/App-Monitor");
    assert_ne!(con_espacio, con_guion);
}

#[test]
fn el_nombre_no_lleva_caracteres_raros() {
    let nombre = nombre_de("/home/pato/Apps/App Monitor_0.1.0.AppImage");
    assert!(
        nombre.chars().all(|c| c.is_ascii_alphanumeric() || c == '-' || c == '_' || c == '.'),
        "el nombre del perfil quedó con caracteres que AppArmor no acepta: {nombre}"
    );
}

#[test]
fn the_name_is_written_character_by_character() {
    assert_eq!(nombre_de("/a_b/c d"), "vasak-permitida_a-_b_c-32-d");
    assert_eq!(nombre_de("/ñ"), "vasak-permitida_-241-");
    assert_eq!(nombre_de(""), "vasak-permitida");
}

#[test]
fn the_first_ambiguous_character_is_the_one_reported() {
    assert_eq!(
        perfil_para("/a*b?", &[]),
        Err(Motivo::CaracterAmbiguo('*'))
    );
    assert_eq!(Motivo::CaracterAmbiguo('*').describir(), "la ruta lleva '*', que AppArmor podría interpretar como comodín");
    assert_eq!(Motivo::NoEsAbsoluta.describir(), "la ruta no es absoluta");
}

#[test]
fn the_profile_text_is_the_whole_template() {
    let perfil = perfil_para("/a", &[Resource::Camera, Resource::Credentials]).unwrap();
    assert!(perfil.starts_with("# ARCHIVO GENERADO"));
    assert!(perfil.contains("profile vasak-permitida_a \"/a\" {\n"));
    assert!(perfil.contains("  userns,\n\n  audit deny /dev/snd/pcmC*D*c rwk,\n\n  include if exists <local/vasak-permitida_a>\n}\n"));
    assert!(perfil.ends_with("}\n"));
}

#[test]
fn nothing_allowed_removes_the_exception_only_if_there_is_one() {
    assert_eq!(que_aplicar("/home/x/a.AppImage", &[], true), Ok(Aplicacion::Retirar));
    assert_eq!(que_aplicar("/home/x/a.AppImage", &[], false), Ok(Aplicacion::NadaQueHacer));
}

#[test]
fn something_allowed_writes_the_whole_profile() {
    let esperado = perfil_para("/home/x/a.AppImage", &[Resource::Camera]).unwrap();
    assert_eq!(
        que_aplicar("/home/x/a.AppImage", &[Resource::Camera], false),
        Ok(Aplicacion::Escribir(esperado))
    );
    assert_eq!(
        que_aplicar("relativa", &[Resource::Camera], true),
        Err(Motivo::NoEsAbsoluta)
    );
}

#[test]
fn the_exception_lives_beside_the_other_profiles() {
    assert_eq!(
        archivo_de_excepcion("/a/b"),
        format!("{DIRECTORIO}/{}", nombre_de("/a/b"))
    );
    assert_eq!(archivo_de_excepcion("/a/b"), "/etc/apparmor.d/vasak-permitida_a_b");
}

#[test]
fn names_that_used_to_look_alike_stay_apart() {
    assert_ne!(nombre_de("/a//b"), nombre_de("/a_b"));
    assert_ne!(nombre_de("/_"), nombre_de("_/"));
    assert_ne!(nombre_de("/x/ "), nombre_de("/x/-32-"));
    assert_ne!(nombre_de("/x/€"), nombre_de("/x/-8364-"));
    assert_eq!(nombre_de("/a_b"), "vasak-permitida_a-_b");
    assert_eq!(nombre_de("/a-b"), "vasak-permitida_a--b");
    assert_eq!(nombre_de("/a b"), "vasak-permitida_a-32-b");
}

#[test]
fn every_rule_is_written_exactly_when_its_resource_is_not_allowed() {
    let todos = [Resource::Camera, Resource::Microphone, Resource::Credentials];
    for mascara in 0u8..8 {
        let permitidos: Vec<Resource> = todos
            .iter()
            .enumerate()
            .filter(|(i, _)| mascara & (1 << i) != 0)
            .map(|(_, r)| *r)
            .collect();
        let perfil = perfil_para("/home/x/App Monitor_0.1.AppImage", &permitidos).unwrap();
        for (recurso, reglas) in negaciones() {
            for regla in reglas {
                assert_eq!(
                    perfil.contains(regla),
                    !permitidos.contains(&recurso),
                    "{regla} with {permitidos:?}"
                );
            }
        }
    }
}

#[test]
fn a_withdrawn_exception_is_unloaded_before_its_file_goes() {
    assert_eq!(
        empezar_a_aplicar(&Aplicacion::Retirar),
        (Aplicando::Descargando, PasoAlDisco::Descargar)
    );
    assert_eq!(
        seguir_aplicando(Aplicando::Descargando, true),
        (Aplicando::Borrando, PasoAlDisco::Borrar)
    );
    assert_eq!(
        seguir_aplicando(Aplicando::Descargando, false),
        (Aplicando::Terminado, PasoAlDisco::Fallar),
        "a failed unload keeps the file"
    );
    assert_eq!(seguir_aplicando(Aplicando::Borrando, true), (Aplicando::Terminado, PasoAlDisco::Listo));
    assert_eq!(
        empezar_a_aplicar(&Aplicacion::NadaQueHacer),
        (Aplicando::Terminado, PasoAlDisco::Listo)
    );
}

#[test]
fn a_profile_is_loaded_only_once_written() {
    assert_eq!(
        empezar_a_aplicar(&Aplicacion::Escribir("x".to_string())),
        (Aplicando::Escribiendo, PasoAlDisco::Escribir)
    );
    assert_eq!(
        seguir_aplicando(Aplicando::Escribiendo, true),
        (Aplicando::Cargando, PasoAlDisco::Cargar)
    );
    assert_eq!(
        seguir_aplicando(Aplicando::Escribiendo, false),
        (Aplicando::Terminado, PasoAlDisco::Fallar)
    );
    assert_eq!(seguir_aplicando(Aplicando::Cargando, false), (Aplicando::Terminado, PasoAlDisco::Fallar));
}
