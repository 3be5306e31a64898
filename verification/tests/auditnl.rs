use vasak_permissions::audit::parsear;
use vasak_permissions::auditnl::{denegacion_en_orden, mensaje_creible, texto_de_mensaje, texto_en_orden, texto_de_registro, CABECERA};

/// A netlink message with the text inside.
fn mensaje(tipo: u16, texto: &str) -> Vec<u8> {
    let largo = CABECERA + texto.len();
    let mut m = Vec::with_capacity(largo);
    m.extend_from_slice(&(largo as u32).to_ne_bytes());
    m.extend_from_slice(&tipo.to_ne_bytes());
    m.extend_from_slice(&0u16.to_ne_bytes());
    m.extend_from_slice(&0u32.to_ne_bytes());
    m.extend_from_slice(&0u32.to_ne_bytes());
    m.extend_from_slice(texto.as_bytes());
    m
}

const UNA_DENEGACION: &str = "audit(1788876866.510:49055): apparmor=\"DENIED\" operation=\"open\" \
    class=\"file\" profile=\"vasak-appimage\" name=\"/home/pato/.ssh/id_ed25519\" \
    pid=232440 comm=\"cat\" requested_mask=\"r\" denied_mask=\"r\" fsuid=1000 ouid=1000";

#[test]
fn de_un_registro_sale_el_texto() {
    let m = mensaje(1400, UNA_DENEGACION);
    assert_eq!(texto_de_mensaje(&m), Some(UNA_DENEGACION));
}

#[test]
fn el_texto_lo_lee_el_analizador_de_siempre() {
    let m = mensaje(1400, UNA_DENEGACION);
    let denegacion = parsear(texto_de_mensaje(&m).unwrap()).unwrap();
    assert_eq!(denegacion.perfil, "vasak-appimage");
    assert_eq!(denegacion.ruta, "/home/pato/.ssh/id_ed25519");
    assert_eq!(denegacion.pid, 232440);
    assert_eq!(denegacion.uid, 1000);
}

#[test]
fn los_mensajes_de_control_se_ignoran() {
    assert_eq!(texto_de_mensaje(&mensaje(2, UNA_DENEGACION)), None);
    assert_eq!(texto_de_mensaje(&mensaje(3, UNA_DENEGACION)), None);
}

#[test]
fn auditnl_un_mensaje_corto_no_lee_de_mas() {
    let m = mensaje(1400, UNA_DENEGACION);
    assert_eq!(texto_de_mensaje(&m[..CABECERA - 1]), None);
    assert_eq!(texto_de_mensaje(&[]), None);
}

#[test]
fn un_largo_inflado_no_se_cree() {
    let mut m = mensaje(1400, UNA_DENEGACION);
    let inflado = m.len() as u32 + 4096;
    m[0..4].copy_from_slice(&inflado.to_ne_bytes());
    assert_eq!(texto_de_mensaje(&m), Some(UNA_DENEGACION));
}

#[test]
fn un_largo_imposible_se_descarta() {
    let mut m = mensaje(1400, UNA_DENEGACION);
    m[0..4].copy_from_slice(&4u32.to_ne_bytes());
    assert_eq!(texto_de_mensaje(&m), None);
}

#[test]
fn a_shorter_declared_length_cuts_the_text() {
    let m = mensaje(1400, "audit(1.2:3): hola");
    assert_eq!(texto_de_registro(&m, (CABECERA + 5) as u32, 1400), Some("audit"));
    assert_eq!(texto_de_registro(&m, CABECERA as u32, 1400), Some(""));
    assert_eq!(texto_de_registro(&m, 200, 1299), None);
}

#[test]
fn bytes_that_are_not_text_are_no_record() {
    let mut m = mensaje(1400, "ab");
    m.push(0xff);
    let largo = m.len() as u32;
    m[0..4].copy_from_slice(&largo.to_ne_bytes());
    assert_eq!(texto_de_mensaje(&m), None);
}

#[test]
fn only_whole_messages_from_the_kernel_are_believed() {
    assert!(mensaje_creible(0, false));
    assert!(!mensaje_creible(0, true));
    assert!(!mensaje_creible(4242, false));
    assert!(!mensaje_creible(4242, true));
}

#[test]
fn the_header_is_read_in_the_one_order_given() {
    let texto = "audit(1.000:1): x";
    let largo = (CABECERA + texto.len()) as u32;
    let mut be = Vec::new();
    be.extend_from_slice(&largo.to_be_bytes());
    be.extend_from_slice(&1400u16.to_be_bytes());
    be.extend_from_slice(&[0u8; 10]);
    be.extend_from_slice(texto.as_bytes());
    be.extend_from_slice(b"zz");
    assert_eq!(texto_en_orden(&be, false), Some(texto), "the declared length cuts the tail");
    assert_eq!(
        texto_en_orden(&be, true),
        Some("audit(1.000:1): xzz"),
        "read little-endian the length is huge and is cut to what arrived"
    );

    let mut le = Vec::new();
    le.extend_from_slice(&largo.to_le_bytes());
    le.extend_from_slice(&1400u16.to_le_bytes());
    le.extend_from_slice(&[0u8; 10]);
    le.extend_from_slice(texto.as_bytes());
    assert_eq!(texto_en_orden(&le, true), Some(texto));
}

#[test]
fn a_datagram_from_the_kernel_becomes_a_denial() {
    let le = u16::from_ne_bytes([1, 0]) == 1;
    let m = mensaje(1400, UNA_DENEGACION);
    let d = denegacion_en_orden(&m, 0, false, le).expect("a denial from the kernel");
    assert_eq!(d.ruta, "/home/pato/.ssh/id_ed25519");
    assert_eq!(d.uid, 1000);
    assert!(denegacion_en_orden(&m, 4242, false, le).is_none(), "not from the kernel");
    assert!(denegacion_en_orden(&m, 0, true, le).is_none(), "truncated");
    assert!(denegacion_en_orden(&mensaje(1400, "hola"), 0, false, le).is_none());
}
