use vasak_permissions::procesos::{
    anotar, cache_nueva, interesa, pid_de_exec, pid_del_mensaje, pid_en_orden, suscripcion_en_orden, recordada, suscripcion, MAXIMO, MEMORIA,
    OFFSET_PID, OFFSET_QUE, PROC_CN_MCAST_LISTEN, PROC_EVENT_EXEC,
};

/// A message as the kernel sends it.
fn mensaje(que: u32, pid: i32) -> Vec<u8> {
    let mut m = vec![0u8; OFFSET_PID + 4];
    m[OFFSET_QUE..OFFSET_QUE + 4].copy_from_slice(&que.to_ne_bytes());
    m[OFFSET_PID..OFFSET_PID + 4].copy_from_slice(&pid.to_ne_bytes());
    m
}

/// A moment on the clock, in milliseconds.
const AHORA: u64 = 9_000_000;

#[test]
fn de_un_exec_sale_el_pid() {
    assert_eq!(pid_de_exec(&mensaje(PROC_EVENT_EXEC, 4242)), Some(4242));
}

#[test]
fn los_otros_eventos_se_ignoran() {
    for que in [0x0000_0001, 0x0000_0004, 0x8000_0000] {
        assert_eq!(pid_de_exec(&mensaje(que, 4242)), None, "aceptó el evento {que:#x}");
    }
}

#[test]
fn procesos_un_mensaje_corto_no_lee_de_mas() {
    assert_eq!(pid_de_exec(&[]), None);
    assert_eq!(pid_de_exec(&[0u8; 40]), None);
    assert_eq!(pid_de_exec(&mensaje(PROC_EVENT_EXEC, 1)[..OFFSET_PID + 3]), None);
}

#[test]
fn la_suscripcion_tiene_la_forma_que_el_kernel_espera() {
    let m = suscripcion(1234);
    assert_eq!(m.len(), OFFSET_QUE + 4);
    assert_eq!(u32::from_ne_bytes(m[0..4].try_into().unwrap()), m.len() as u32);
    assert_eq!(
        u32::from_ne_bytes(m[OFFSET_QUE..OFFSET_QUE + 4].try_into().unwrap()),
        PROC_CN_MCAST_LISTEN
    );
}

#[test]
fn solo_interesan_los_ejecutables_de_las_personas() {
    assert!(interesa("/home/x/Apps/a.AppImage"));
    assert!(interesa("/root/a.AppImage"));
    assert!(!interesa("/usr/bin/ls"));
    assert!(!interesa("/tmp/a"));
}

#[test]
fn lo_que_no_se_anoto_no_se_recuerda() {
    let cache = cache_nueva();
    assert_eq!(recordada(&cache, 999, AHORA), None);
}

#[test]
fn una_entrada_vencida_no_se_devuelve() {
    let mut cache = cache_nueva();
    let viejo = AHORA - MEMORIA - 1_000;
    anotar(&mut cache, 7, "/home/x/a.AppImage".to_string(), viejo);
    assert_eq!(recordada(&cache, 7, AHORA), None);
}

#[test]
fn a_fresh_entry_is_remembered() {
    let mut cache = cache_nueva();
    anotar(&mut cache, 7, "/home/x/a.AppImage".to_string(), AHORA);
    assert_eq!(recordada(&cache, 7, AHORA + 10).as_deref(), Some("/home/x/a.AppImage"));
    anotar(&mut cache, 8, "/usr/bin/ls".to_string(), AHORA);
    assert_eq!(recordada(&cache, 8, AHORA), None);
}

#[test]
fn a_negative_pid_is_no_pid() {
    assert_eq!(pid_de_exec(&mensaje(PROC_EVENT_EXEC, -1)), None);
    assert_eq!(pid_de_exec(&mensaje(PROC_EVENT_EXEC, i32::MAX)), Some(i32::MAX as u32));
}

#[test]
fn home_is_a_component_not_a_prefix() {
    assert!(interesa("/home"));
    assert!(interesa("//home/x"));
    assert!(interesa("/./home/x"));
    assert!(!interesa("/homeless/x"));
    assert!(!interesa("home/x"));
    assert!(!interesa("/../home/x"));
}

#[test]
fn a_full_cache_takes_nothing_new_but_drops_the_stale() {
    let mut cache = cache_nueva();
    for pid in 0..MAXIMO as u32 {
        anotar(&mut cache, pid, "/home/x/a".to_string(), AHORA);
    }
    anotar(&mut cache, 100_000, "/home/x/b".to_string(), AHORA);
    assert_eq!(recordada(&cache, 100_000, AHORA), None);
    let despues = AHORA + MEMORIA;
    anotar(&mut cache, 100_000, "/home/x/b".to_string(), despues);
    assert_eq!(recordada(&cache, 100_000, despues).as_deref(), Some("/home/x/b"));
    assert_eq!(recordada(&cache, 1, despues), None);
}

#[test]
fn only_an_exec_with_a_real_pid_is_taken() {
    assert_eq!(pid_del_mensaje(PROC_EVENT_EXEC, 4242), Some(4242));
    assert_eq!(pid_del_mensaje(PROC_EVENT_EXEC, 0), Some(0));
    assert_eq!(pid_del_mensaje(PROC_EVENT_EXEC, -1), None);
    assert_eq!(pid_del_mensaje(0x0000_0001, 4242), None);
    assert_eq!(pid_del_mensaje(0x8000_0000, 4242), None);
}

#[test]
fn both_fields_are_read_in_the_one_order_given() {
    let mut le = vec![0u8; OFFSET_PID + 4];
    le[OFFSET_QUE..OFFSET_QUE + 4].copy_from_slice(&PROC_EVENT_EXEC.to_le_bytes());
    le[OFFSET_PID..OFFSET_PID + 4].copy_from_slice(&4242i32.to_le_bytes());
    assert_eq!(pid_en_orden(&le, true), Some(4242));
    assert_eq!(pid_en_orden(&le, false), None, "read big-endian it is no exec");

    let mut be = vec![0u8; OFFSET_PID + 4];
    be[OFFSET_QUE..OFFSET_QUE + 4].copy_from_slice(&PROC_EVENT_EXEC.to_be_bytes());
    be[OFFSET_PID..OFFSET_PID + 4].copy_from_slice(&4242i32.to_be_bytes());
    assert_eq!(pid_en_orden(&be, false), Some(4242));

    be[OFFSET_PID..OFFSET_PID + 4].copy_from_slice(&(-5i32).to_be_bytes());
    assert_eq!(pid_en_orden(&be, false), None, "a negative pid is none");
    assert_eq!(pid_en_orden(&be[..OFFSET_PID + 3], false), None);
}

#[test]
fn the_subscription_is_written_in_the_one_order_given() {
    let m = suscripcion_en_orden(0x0102_0304, true);
    assert_eq!(
        m,
        vec![
            40, 0, 0, 0, 3, 0, 0, 0, 0, 0, 0, 0, 4, 3, 2, 1, 1, 0, 0, 0, 1, 0, 0, 0, 0, 0, 0, 0, 0,
            0, 0, 0, 4, 0, 0, 0, 1, 0, 0, 0,
        ]
    );
    let m = suscripcion_en_orden(0x0102_0304, false);
    assert_eq!(
        m,
        vec![
            0, 0, 0, 40, 0, 3, 0, 0, 0, 0, 0, 0, 1, 2, 3, 4, 0, 0, 0, 1, 0, 0, 0, 1, 0, 0, 0, 0, 0,
            0, 0, 0, 0, 4, 0, 0, 0, 0, 0, 1,
        ]
    );
}
