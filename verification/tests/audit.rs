use vasak_permissions::audit::{
    clasificar, es_credencial, Clasificacion, es_nuestro, momento_de, numero_de, parsear, recurso_de, registrar_el_intento,
    texto_de,
};
use vasak_permissions::excepcion::{negaciones, nombre_de};
use vasak_permissions::policy::UserPolicy;
use vasak_permissions::protocol::{Application, Decision, Provenance, Resource};

/// A line as the kernel writes it, copied from the real log.
const REAL: &str = "audit: type=1400 audit(1788539628.817:36077): apparmor=\"DENIED\" \
    operation=\"open\" class=\"file\" profile=\"vasak-appimage\" \
    name=\"/dev/video0\" pid=167490 comm=\"prueba-vasak.Ap\" \
    requested_mask=\"r\" denied_mask=\"r\" fsuid=1000 ouid=0";

fn una_app(ruta: &str) -> Application {
    Application {
        binary_path: ruta.to_string(),
        display_name: "prueba".into(),
        provenance: Provenance::Unverified,
    }
}

#[test]
fn un_bloqueo_deja_a_la_aplicacion_anotada() {
    let mut politica = UserPolicy::default();
    let app = una_app("/home/x/a.AppImage");

    assert!(registrar_el_intento(&mut politica, &app, &Resource::Camera.as_id()));

    assert_eq!(
        politica.decision("/home/x/a.AppImage", "camera"),
        Decision::Denied
    );
}

#[test]
fn no_pisa_una_decision_ya_tomada() {
    let mut politica = UserPolicy::default();
    let app = una_app("/home/x/a.AppImage");
    politica.record(&app, "camera", Decision::Allowed, false);

    assert!(!registrar_el_intento(&mut politica, &app, &Resource::Camera.as_id()));

    assert_eq!(
        politica.decision("/home/x/a.AppImage", "camera"),
        Decision::Allowed,
        "el bloqueo borró un permiso que la persona había concedido"
    );
}

#[test]
fn cada_recurso_se_anota_por_separado() {
    let mut politica = UserPolicy::default();
    let app = una_app("/home/x/a.AppImage");

    registrar_el_intento(&mut politica, &app, &Resource::Microphone.as_id());

    assert_eq!(politica.decision("/home/x/a.AppImage", "microphone"), Decision::Denied);
    assert_eq!(politica.decision("/home/x/a.AppImage", "camera"), Decision::Unknown);
}

#[test]
fn un_bloqueo_bajo_un_perfil_de_excepcion_no_se_descarta() {
    let nombre = nombre_de("/home/ana/Apps/cosa.AppImage");
    let linea = format!(
        "audit(1788539628.817:36077): apparmor=\"DENIED\" operation=\"open\" \
         profile=\"{nombre}\" name=\"/home/ana/.ssh/id_ed25519\" pid=4242 \
         comm=\"cosa\" requested_mask=\"r\" denied_mask=\"r\" fsuid=1000 ouid=1000"
    );
    let d = parsear(&linea).expect("la denegación tiene que llegar");
    assert_eq!(d.ruta, "/home/ana/.ssh/id_ed25519");
    assert_eq!(recurso_de(&d.ruta), Some(Resource::Credentials));
}

#[test]
fn una_credencial_se_reconoce() {
    for ruta in [
        "/home/ana/.ssh/id_ed25519",
        "/home/ana/.gnupg/private-keys-v1.d/x.key",
        "/home/ana/.local/share/vasak-keyring/llavero.db",
        "/run/user/1000/ssh-agent.socket",
        "/home/ana/.netrc",
        "/home/ana/.git-credentials",
        "/home/ana/.aws/credentials",
        "/home/ana/.config/gh/hosts.yml",
        "/home/ana/.docker/config.json",
    ] {
        assert_eq!(recurso_de(ruta), Some(Resource::Credentials), "{ruta}");
    }
}

#[test]
fn lo_que_solo_se_parece_no_cuenta() {
    for ruta in [
        "/home/ana/proyecto/.sshconfig",
        "/home/ana/.netrc.bak",
        "/home/ana/notas/docker/config.json.ejemplo",
        "/home/ana/Descargas/gnupg.pdf",
        "/home/ana/Documentos/carta.txt",
    ] {
        assert_eq!(recurso_de(ruta), None, "{ruta}");
    }
}

#[test]
fn toda_negacion_de_credenciales_se_reconoce() {
    let reglas = negaciones()
        .into_iter()
        .find(|(recurso, _)| *recurso == Resource::Credentials)
        .expect("las credenciales están en la tabla de negaciones")
        .1;

    for regla in reglas {
        let patron = regla.split_whitespace().nth(2).expect("regla con ruta");
        let concreta = patron
            .replace("@{HOME}", "/home/ana")
            .replace("/run/user/*/", "/run/user/1000/")
            .replace("/**", "/un-archivo")
            .replace("/*", "/un-archivo");

        assert_eq!(
            recurso_de(&concreta),
            Some(Resource::Credentials),
            "el perfil niega «{patron}» y el vigilante no lo reconoce: \
             el bloqueo sería mudo"
        );
    }
}

#[test]
fn una_marca_imposible_no_entra_en_panico() {
    for marca in ["inf", "NaN", "1e30", "-inf", "99999999999999999999999"] {
        let linea = format!("audit({marca}:36077): apparmor=\"DENIED\"");
        assert_eq!(momento_de(&linea), None, "marca: {marca}");
    }
}

#[test]
fn las_milesimas_valen_lo_que_dicen() {
    let de = |m: &str| momento_de(&format!("audit({m}:1):")).unwrap();
    assert_eq!(de("10.817").subsec_millis(), 817);
    assert_eq!(de("10.8").subsec_millis(), 800);
    assert_eq!(de("10.08").subsec_millis(), 80);
    assert_eq!(de("10").subsec_millis(), 0);
    assert_eq!(de("1788539628.817").as_secs(), 1_788_539_628);
}

#[test]
fn una_denegacion_real_se_interpreta_entera() {
    let d = parsear(REAL).expect("tendría que reconocerla");
    assert_eq!(d.perfil, "vasak-appimage");
    assert_eq!(d.ruta, "/dev/video0");
    assert_eq!(d.pid, 167490);
    assert_eq!(d.uid, 1000);
}

#[test]
fn la_hora_del_bloqueo_sale_del_registro() {
    let d = parsear(REAL).unwrap();
    assert_eq!(d.momento.as_secs(), 1788539628);
    assert!(d.momento.subsec_millis() >= 816 && d.momento.subsec_millis() <= 818);
}

#[test]
fn una_linea_sin_marca_no_inventa_una_hora() {
    assert_eq!(momento_de("sin marca"), None);
    assert_eq!(momento_de("audit(sin dos puntos"), None);
}

#[test]
fn no_confunde_fsuid_con_ouid() {
    let d = parsear(REAL).unwrap();
    assert_eq!(d.uid, 1000, "tomó el ouid en lugar del fsuid");
}

#[test]
fn lo_permitido_no_es_una_denegacion() {
    let permitido = REAL.replace("DENIED", "ALLOWED");
    assert_eq!(parsear(&permitido), None);
}

#[test]
fn un_perfil_ajeno_llega_y_se_clasifica_como_ajeno() {
    let ajeno = REAL.replace("vasak-appimage", "usr.bin.man");
    let d = parsear(&ajeno).expect("la denegación tiene que llegar");
    assert_eq!(d.perfil, "usr.bin.man");
    assert!(!es_nuestro(&d.perfil));
}

#[test]
fn los_nuestros_se_reconocen_como_nuestros() {
    assert!(es_nuestro("vasak-appimage"));
    assert!(es_nuestro(&nombre_de("/home/ana/x.AppImage")));
    for ajeno in ["firefox", "usr.bin.man", "dbus-system", "vasak", "appimage"] {
        assert!(!es_nuestro(ajeno), "«{ajeno}» no es nuestro");
    }
}

#[test]
fn una_linea_cualquiera_del_kernel_no_confunde() {
    assert_eq!(parsear("usb 1-2: new high-speed USB device"), None);
    assert_eq!(parsear(""), None);
    assert_eq!(parsear("apparmor=\"DENIED\" sin nada más"), None);
}

#[test]
fn las_rutas_se_traducen_al_recurso_que_son() {
    assert_eq!(recurso_de("/dev/video0"), Some(Resource::Camera));
    assert_eq!(recurso_de("/dev/video42"), Some(Resource::Camera));
    assert_eq!(recurso_de("/dev/snd/pcmC0D0c"), Some(Resource::Microphone));
}

#[test]
fn un_dispositivo_de_reproduccion_no_es_el_microfono() {
    assert_eq!(recurso_de("/dev/snd/pcmC0D0p"), None);
    assert_eq!(recurso_de("/dev/snd/controlC0"), None);
}

#[test]
fn una_ruta_que_no_reconocemos_no_inventa_un_recurso() {
    assert_eq!(recurso_de("/home/alguien/archivo"), None);
    assert_eq!(recurso_de(""), None);
}

#[test]
fn a_missing_denied_mask_grants_only_reading() {
    let sin_mascara = REAL.replace(" denied_mask=\"r\"", "");
    let d = parsear(&sin_mascara).unwrap();
    assert_eq!(d.mascara, "r");
    let con_otra = REAL.replace("denied_mask=\"r\"", "denied_mask=\"wc\"");
    assert_eq!(parsear(&con_otra).unwrap().mascara, "wc");
}

#[test]
fn a_line_without_a_pid_or_a_fsuid_is_not_read() {
    assert_eq!(parsear(&REAL.replace(" pid=167490", "")), None);
    assert_eq!(parsear(&REAL.replace(" fsuid=1000", "")), None);
    assert_eq!(parsear(&REAL.replace("name=", "nombre=")), None);
}

#[test]
fn a_line_without_a_stamp_still_reads_with_no_time() {
    let sin_marca = REAL.replace("audit(1788539628.817:36077): ", "");
    let d = parsear(&sin_marca).unwrap();
    assert_eq!(d.momento.as_secs(), 0);
    assert_eq!(d.momento.subsec_nanos(), 0);
}

#[test]
fn values_are_read_by_key() {
    assert_eq!(texto_de(REAL, "profile").as_deref(), Some("vasak-appimage"));
    assert_eq!(texto_de(REAL, "class").as_deref(), Some("file"));
    assert_eq!(texto_de(REAL, "missing"), None);
    assert_eq!(numero_de(REAL, "pid"), Some(167490));
    assert_eq!(numero_de(REAL, "ouid"), Some(0));
    assert_eq!(numero_de("x pid=4294967296", "pid"), None);
    assert_eq!(numero_de("x pid=4294967295", "pid"), Some(4294967295));
    assert_eq!(numero_de("x pid=", "pid"), None);
}

#[test]
fn a_stamp_with_a_long_fraction_keeps_three_digits() {
    let m = momento_de("audit(5.123456:1)").unwrap();
    assert_eq!(m.as_secs(), 5);
    assert_eq!(m.subsec_nanos(), 123_000_000);
    assert_eq!(momento_de("audit(5.1x:1)"), None);
    assert_eq!(momento_de("audit(+5:1)").unwrap().as_secs(), 5);
}

#[test]
fn credentials_are_matched_by_segment() {
    assert!(es_credencial("/home/ana/.ssh/config"));
    assert!(!es_credencial("/home/ana/.ssh"));
    assert!(es_credencial("/x/.npmrc"));
    assert!(!es_credencial("/x/.npmrc2"));
}

#[test]
fn a_denial_is_sorted_by_its_profile_and_its_path() {
    let propia = parsear(REAL).unwrap();
    assert_eq!(clasificar(&propia), Clasificacion::Propio(Resource::Camera));

    let ajena = parsear(&REAL.replace("vasak-appimage", "usr.bin.man")).unwrap();
    assert_eq!(clasificar(&ajena), Clasificacion::Ajeno);

    let rara = parsear(&REAL.replace("/dev/video0", "/etc/hostname")).unwrap();
    assert_eq!(clasificar(&rara), Clasificacion::SinRecurso);

    let de_excepcion = parsear(&REAL.replace("vasak-appimage", &nombre_de("/opt/x/app"))).unwrap();
    assert_eq!(clasificar(&de_excepcion), Clasificacion::Propio(Resource::Camera));
}
