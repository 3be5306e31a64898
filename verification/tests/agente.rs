use vasak_permissions::agente::{
    antes_de_preguntar, despues_de_preguntar, recurso_del_dialogo, Antes, Decidido, Respuesta,
};
use vasak_permissions::protocol::{Decision, Resource};

#[test]
fn el_icono_de_la_camara_nombra_la_camara() {
    assert_eq!(recurso_del_dialogo(Some("camera-web-symbolic")), Some("camera"));
}

#[test]
fn lo_que_se_nombra_existe_como_recurso() {
    let id = recurso_del_dialogo(Some("camera-web-symbolic")).expect("la cámara se reconoce");
    assert!(Resource::from_id(id).is_some());
}

#[test]
fn lo_desconocido_no_se_nombra() {
    assert_eq!(recurso_del_dialogo(Some("mark-location-symbolic")), None);
    assert_eq!(recurso_del_dialogo(None), None);
}

#[test]
fn las_decisiones_se_traducen() {
    assert_eq!(Decidido::de(Decision::Allowed), Decidido::Permitido);
    assert_eq!(Decidido::de(Decision::Denied), Decidido::Negado);
    assert_eq!(Decidido::de(Decision::Unknown), Decidido::SinDecidir);
}

#[test]
fn solo_se_guarda_lo_que_contesto_alguien() {
    assert!(Respuesta::Permitio.la_contesto_alguien());
    assert!(Respuesta::Nego.la_contesto_alguien());
    assert!(!Respuesta::NoSePudoPreguntar.la_contesto_alguien());
    assert!(Respuesta::Permitio.permitio());
    assert!(!Respuesta::Nego.permitio());
    assert!(!Respuesta::NoSePudoPreguntar.permitio());
    assert_eq!(despues_de_preguntar(true, Respuesta::NoSePudoPreguntar), (false, false));
    assert_eq!(despues_de_preguntar(true, Respuesta::Nego), (false, true));
    assert_eq!(despues_de_preguntar(false, Respuesta::Permitio), (true, false));
}

#[test]
fn what_was_decided_is_not_asked_again() {
    assert_eq!(antes_de_preguntar(true, Decidido::Permitido), Antes::Contestar(true));
    assert_eq!(antes_de_preguntar(true, Decidido::Negado), Antes::Contestar(false));
    assert_eq!(antes_de_preguntar(true, Decidido::SinDecidir), Antes::Preguntar);
    assert_eq!(antes_de_preguntar(false, Decidido::Permitido), Antes::Preguntar);
}

#[test]
fn an_unreadable_answer_is_not_decided() {
    assert_eq!(Decidido::del_id("allowed"), Decidido::Permitido);
    assert_eq!(Decidido::del_id("denied"), Decidido::Negado);
    assert_eq!(Decidido::del_id("unknown"), Decidido::SinDecidir);
    assert_eq!(Decidido::del_id("Allowed"), Decidido::SinDecidir);
}
