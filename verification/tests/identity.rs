use vasak_permissions::protocol::is_delegate;
use vasak_permissions::identity::{
    delegate_may_speak_for, display_name_for, file_name, matching_entry_name, provenance_of,
};
use vasak_permissions::protocol::Provenance;

#[test]
fn el_delegado_de_sistema_habla_por_cualquier_usuario() {
    assert!(delegate_may_speak_for(0, 1000));
    assert!(delegate_may_speak_for(0, 1001));
    assert!(delegate_may_speak_for(0, 0));
}

#[test]
fn un_delegado_sin_privilegios_no_puede_preguntar_por_otro_usuario() {
    assert!(delegate_may_speak_for(1000, 1000), "su propio usuario, sí");
    assert!(!delegate_may_speak_for(1000, 1001), "el de al lado, no");
    assert!(!delegate_may_speak_for(1000, 0), "y root menos todavía");
}

#[test]
fn programs_the_user_can_replace_are_marked_unverified() {
    assert_eq!(provenance_of("/usr/bin/env", true), Provenance::SystemInstalled);
    assert_eq!(
        provenance_of("/home/someone/.local/bin/tool", true),
        Provenance::Unverified
    );
}

#[test]
fn a_missing_binary_is_never_treated_as_system_installed() {
    assert_eq!(
        provenance_of("/usr/bin/definitely-not-installed-xyz", false),
        Provenance::Unverified
    );
}

#[test]
fn a_desktop_entry_gives_the_program_its_real_name() {
    let entry = "[Desktop Entry]\nName=Reproductor\nExec=/usr/bin/vasak-resonance %U\n";
    assert_eq!(
        matching_entry_name(entry, "/usr/bin/vasak-resonance", "vasak-resonance"),
        Some("Reproductor".into())
    );
}

#[test]
fn an_entry_for_another_program_is_not_used() {
    let entry = "[Desktop Entry]\nName=Otra cosa\nExec=/usr/bin/something-else\n";
    assert_eq!(
        matching_entry_name(entry, "/usr/bin/vasak-resonance", "vasak-resonance"),
        None
    );
}

#[test]
fn only_the_main_group_provides_the_name() {
    let entry = "[Desktop Entry]\n\
                 Name=Reproductor\n\
                 Exec=/usr/bin/vasak-resonance\n\
                 \n\
                 [Desktop Action New]\n\
                 Name=Ventana nueva\n";
    assert_eq!(
        matching_entry_name(entry, "/usr/bin/vasak-resonance", "vasak-resonance"),
        Some("Reproductor".into())
    );
}

#[test]
fn an_exec_without_a_path_still_matches() {
    let entry = "[Desktop Entry]\nName=Reproductor\nExec=vasak-resonance\n";
    assert_eq!(
        matching_entry_name(entry, "/usr/bin/vasak-resonance", "vasak-resonance"),
        Some("Reproductor".into())
    );
}

#[test]
fn a_program_without_a_desktop_entry_falls_back_to_its_file_name() {
    assert_eq!(
        display_name_for("/usr/bin/definitely-not-installed-xyz", None),
        "definitely-not-installed-xyz"
    );
}

#[test]
fn a_desktop_name_wins_over_the_file_name() {
    assert_eq!(display_name_for("/usr/bin/x", Some("Equis".to_string())), "Equis");
    assert_eq!(display_name_for("/", None), "/");
    assert_eq!(display_name_for("/usr/bin/..", None), "/usr/bin/..");
}

#[test]
fn file_names_follow_the_path_components() {
    assert_eq!(file_name("/usr/bin/ls").as_deref(), Some("ls"));
    assert_eq!(file_name("/usr/bin/").as_deref(), Some("bin"));
    assert_eq!(file_name("/usr/bin/.").as_deref(), Some("bin"));
    assert_eq!(file_name("/usr/bin/.."), None);
    assert_eq!(file_name("/"), None);
    assert_eq!(file_name(""), None);
    assert_eq!(file_name("portal:com.google.Chrome").as_deref(), Some("portal:com.google.Chrome"));
}

#[test]
fn a_localised_name_or_an_entry_without_exec_gives_nothing() {
    let localizado = "[Desktop Entry]\nName[es]=Reproductor\nExec=x\n";
    assert_eq!(matching_entry_name(localizado, "/usr/bin/x", "x"), None);
    let sin_exec = "[Desktop Entry]\nName=Reproductor\n";
    assert_eq!(matching_entry_name(sin_exec, "/usr/bin/x", "x"), None);
    let con_espacios = "  [Desktop Entry]  \n  Name=  Reproductor  \n Exec=  x --flag\n";
    assert_eq!(matching_entry_name(con_espacios, "/usr/bin/x", "x"), Some("Reproductor".into()));
}

#[test]
fn the_system_prefixes_are_whole_directories() {
    assert_eq!(provenance_of("/opt/app/bin/app", true), Provenance::SystemInstalled);
    assert_eq!(provenance_of("/bin/sh", true), Provenance::SystemInstalled);
    assert_eq!(provenance_of("/usrlocal/bin/x", true), Provenance::Unverified);
}

/// A delegate may ask about a process when it is a delegate and the process
/// is its user's, or it runs as root: the two checks the service makes.
fn puede_preguntar(delegado: &str, uid_del_delegado: u32, uid_del_sujeto: u32) -> bool {
    is_delegate(delegado) && delegate_may_speak_for(uid_del_delegado, uid_del_sujeto)
}

#[test]
fn el_sincronizador_pregunta_por_un_proceso_de_su_propio_usuario() {
    assert!(puede_preguntar("/usr/bin/vasak-accounts-sync", 1000, 1000));
}

#[test]
fn el_sincronizador_no_pregunta_por_un_proceso_de_otro_usuario() {
    assert!(!puede_preguntar("/usr/bin/vasak-accounts-sync", 1001, 1000));
}

#[test]
fn wireplumber_tampoco_pregunta_por_otro_usuario() {
    assert!(puede_preguntar("/usr/bin/wireplumber", 1000, 1000));
    assert!(!puede_preguntar("/usr/bin/wireplumber", 1001, 1000));
}

#[test]
fn el_servicio_de_cuentas_como_root_sigue_hablando_por_cualquiera() {
    assert!(puede_preguntar("/usr/bin/vasak-accounts", 0, 1000));
}

#[test]
fn un_programa_que_no_es_delegado_no_llega_al_sujeto() {
    for binary in [
        "/usr/bin/vasak-mail",
        "/home/alguien/.local/bin/vasak-accounts-sync",
        "/tmp/vasak-accounts-sync",
    ] {
        assert!(!is_delegate(binary), "{binary}");
    }
}
