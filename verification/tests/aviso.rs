use vasak_permissions::aviso::{icono_de, se_avisa_de, texto, texto_con_detalle};

#[test]
fn se_avisa_de_un_bloqueo_de_archivo() {
    assert!(se_avisa_de("file"));
}

#[test]
fn el_cuerpo_lleva_la_aplicacion_y_la_ruta() {
    let texto = texto_con_detalle(
        "Un perfil le impidió abrir {1}. Fue {0}.",
        "Firefox",
        "/etc/shadow",
    );
    assert_eq!(texto, "Un perfil le impidió abrir /etc/shadow. Fue Firefox.");
}

#[test]
fn una_plantilla_incompleta_no_deja_marcadores_sueltos() {
    assert_eq!(texto_con_detalle("Se bloqueó algo", "App", "/x"), "Se bloqueó algo");
    assert_eq!(texto_con_detalle("{0} falló", "App", "/x"), "App falló");
}

#[test]
fn el_nombre_de_la_aplicacion_reemplaza_al_marcador() {
    assert_eq!(
        texto("{0} quiso usar la cámara", "App Monitor"),
        "App Monitor quiso usar la cámara"
    );
}

#[test]
fn una_plantilla_sin_marcador_no_rompe() {
    assert_eq!(texto("Se bloqueó la cámara", "App"), "Se bloqueó la cámara");
}

#[test]
fn solo_se_avisa_de_lo_que_los_perfiles_niegan() {
    assert!(se_avisa_de("camera"));
    assert!(se_avisa_de("microphone"));
}

#[test]
fn no_se_avisa_de_cualquier_cosa_que_llegue_por_el_bus() {
    assert!(!se_avisa_de("screen-capture"));
    assert!(!se_avisa_de("location"));
    assert!(!se_avisa_de("account.email"));
    assert!(!se_avisa_de("inventado"));
    assert!(!se_avisa_de(""));
}

#[test]
fn cada_recurso_lleva_su_icono() {
    assert_eq!(icono_de("microphone"), "audio-input-microphone");
    assert_eq!(icono_de("camera"), "camera-web");
}

#[test]
fn every_marker_is_replaced_and_nothing_else() {
    assert_eq!(texto("{0} y {0}", "A"), "A y A");
    assert_eq!(texto("{0", "A"), "{0");
    assert_eq!(icono_de("credentials"), "dialog-password");
    assert_eq!(icono_de("file"), "dialog-warning");
    assert!(se_avisa_de("credentials"));
}
