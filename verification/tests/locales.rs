use vasak_permissions::locales::{
    candidatas, codigo_de_idioma, esta_instalado, idioma_de, soportados, NOMBRE, RESERVA,
};

#[test]
fn una_aplicacion_instalada_no_mira_el_directorio_de_trabajo() {
    let rutas = candidatas(
        Some("/usr/bin/vasak-cosa"),
        Some("/home/pato/VasakOS/vasak-desktop/src-tauri"),
    );

    assert!(
        !rutas.iter().any(|ruta| ruta.starts_with("/home")),
        "una aplicación instalada no puede cargar catálogos del directorio de trabajo: {rutas:?}"
    );
    assert_eq!(rutas, vec![format!("/usr/share/{NOMBRE}/locales")]);
}

#[test]
fn en_desarrollo_los_catalogos_del_proyecto_ganan() {
    let rutas = candidatas(
        Some("/home/pato/proyecto/src-tauri/target/release/app"),
        Some("/home/pato/proyecto"),
    );

    assert_eq!(
        rutas,
        vec![
            "/home/pato/proyecto/locales".to_string(),
            "/home/pato/proyecto/src-tauri/locales".to_string(),
            format!("/usr/share/{NOMBRE}/locales"),
        ]
    );
}

#[test]
fn los_prefijos_del_sistema_son_los_que_cuentan() {
    assert!(esta_instalado("/usr/bin/vasak-cosa"));
    assert!(esta_instalado("/usr/local/bin/vasak-cosa"));
    assert!(esta_instalado("/opt/cosa/bin/app"));
    assert!(esta_instalado("/snap/cosa/bin/app"));
    assert!(!esta_instalado("/home/pato/proyecto/target/release/app"));
    assert!(!esta_instalado("/home/usr/proyecto/target/release/app"));
}

#[test]
fn sin_entorno_queda_la_ruta_instalada() {
    assert_eq!(candidatas(None, None), vec![format!("/usr/share/{NOMBRE}/locales")]);
}

#[test]
fn se_saca_el_idioma_de_un_locale_completo() {
    assert_eq!(codigo_de_idioma("es_AR.UTF-8"), Some("es".to_string()));
    assert_eq!(codigo_de_idioma("en_US.UTF-8@euro"), Some("en".to_string()));
    assert_eq!(codigo_de_idioma("es"), Some("es".to_string()));
}

#[test]
fn un_idioma_sin_traducir_no_se_acepta() {
    assert_eq!(codigo_de_idioma("fr_FR.UTF-8"), None);
    assert_eq!(codigo_de_idioma("de"), None);
}

#[test]
fn un_locale_vacio_o_raro_no_da_idioma() {
    assert_eq!(codigo_de_idioma(""), None);
    assert_eq!(codigo_de_idioma("_AR"), None);
    assert_eq!(codigo_de_idioma(".UTF-8"), None);
}

#[test]
fn el_idioma_de_reserva_esta_entre_los_soportados() {
    assert!(soportados().contains(&RESERVA));
}

#[test]
fn los_soportados_no_estan_vacios() {
    let soportados = soportados();
    assert!(!soportados.is_empty());
    for idioma in soportados {
        assert!(!idioma.is_empty());
        assert_eq!(idioma.len(), 2, "se esperan códigos de dos letras");
    }
}

#[test]
fn the_first_value_that_is_not_blank_decides() {
    assert_eq!(
        idioma_de(&[Some(String::new()), None, Some("en_US.UTF-8".to_string())]),
        "en"
    );
    assert_eq!(idioma_de(&[Some("fr_FR".to_string()), Some("en_US".to_string())]), "es");
    assert_eq!(idioma_de(&[None, None, None]), "es");
    assert_eq!(idioma_de(&[Some("  ".to_string()), Some("en".to_string())]), "en");
}

#[test]
fn a_working_directory_with_a_trailing_slash_gets_no_second_one() {
    assert_eq!(candidatas(None, Some("/p/"))[0], "/p/locales");
}
