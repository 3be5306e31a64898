use vasak_permissions::capturas::Registro;

#[test]
fn arranca_vacio() {
    assert!(Registro::nuevo().vivas().is_empty());
}

#[test]
fn anota_y_saca() {
    let mut registro = Registro::nuevo();
    let sesion = "/org/freedesktop/portal/desktop/session/1_1/x";

    registro.sumar(sesion, "com.google.Chrome");
    assert_eq!(
        registro.vivas(),
        vec![(sesion.to_string(), "com.google.Chrome".to_string())]
    );

    assert!(registro.sacar(sesion), "estaba, tiene que salir true");
    assert!(registro.vivas().is_empty());
}

#[test]
fn sacar_lo_que_no_esta_no_miente() {
    let mut registro = Registro::nuevo();
    assert!(!registro.sacar("/no/existe"));
}

#[test]
fn conviven_varias() {
    let mut registro = Registro::nuevo();
    registro.sumar("/sesion/1", "org.mozilla.firefox");
    registro.sumar("/sesion/2", "com.obsproject.Studio");

    let vivas = registro.vivas();
    assert_eq!(vivas.len(), 2);
    assert!(vivas.iter().any(|(_, app)| app == "org.mozilla.firefox"));
    assert!(vivas.iter().any(|(_, app)| app == "com.obsproject.Studio"));
}

#[test]
fn a_session_started_again_keeps_the_last_application() {
    let mut registro = Registro::nuevo();
    registro.sumar("/sesion/1", "a");
    registro.sumar("/sesion/1", "b");
    assert_eq!(registro.vivas(), vec![("/sesion/1".to_string(), "b".to_string())]);
    assert!(registro.sacar("/sesion/1"));
    assert!(!registro.sacar("/sesion/1"), "closing twice is told once");
}
