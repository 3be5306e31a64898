//! Remembering which executable each process started, so that a program can
//! still be named after it has exited.
//!
//! A program refused the camera often exits at once, and by the time its
//! denial is read `/proc/<pid>/exe` is gone. The kernel's process connector
//! reports each `exec` when it happens, when the process still exists; the
//! path read then is kept here for a short while. Only executables under
//! somebody's home are kept, since those are what the profiles confine.
//!
//! Listening on the connector and reading `/proc` is done by the program
//! around this library; what is decided here is what is kept, for how long,
//! and how the connector's messages are read and written.
use vstd::prelude::*;
use std::collections::HashMap;
use crate::identity::componentes;
use crate::orden::{
    con_signo, con_signo_de, leer16, leer32, leer_u32, orden_de_la_maquina, poner16, poner32,
};
use crate::texto::{caracteres, iguales, trozos, trozos_con};
use crate::throttle::transcurrido;
use vstd::std_specs::iter::IteratorSpec;

verus! {

broadcast use {vstd::std_specs::hash::group_hash_axioms, vstd::string::group_string_axioms};

/// How long a process is remembered after its `exec`, in milliseconds. The
/// denial arrives within milliseconds, and pids are reused: remembering an old
/// one would name the wrong application, which is worse than naming none.
pub const MEMORIA: u64 = 60_000;

/// A ceiling on entries, for when the system runs many programs at once.
pub const MAXIMO: usize = 512;

/// Whether an executable is worth remembering: only under somebody's home
/// (`/home` or `/root`, compared by path component), which is what the
/// profiles confine. Remembering `/usr/bin/ls` would fill the cache and never
/// help.
pub open spec fn de_una_persona(ruta: Seq<char>) -> bool {
    &&& ruta.len() > 0
    &&& ruta[0] == '/'
    &&& componentes(ruta).len() > 0
    &&& (componentes(ruta)[0] == "home"@ || componentes(ruta)[0] == "root"@)
}

pub fn interesa(ruta: &str) -> (r: bool)
    ensures
        r == de_una_persona(ruta@),
{
    let c = caracteres(ruta);
    if !(c.len() > 0 && c[0] == '/') {
        return false;
    }
    let partes = trozos(c.as_slice(), false);
    let ghost todas = trozos_con(ruta@, false, Seq::empty());
    let ghost pred = |t: Seq<char>| t != seq!['.'];
    let punto = vec!['.'];
    assert(punto@ =~= seq!['.']);
    let mut i: usize = 0;
    while i < partes.len()
        invariant
            i <= partes@.len(),
            partes@.map_values(|l: Vec<char>| l@) == todas,
            todas == trozos_con(ruta@, false, Seq::empty()),
            pred == (|t: Seq<char>| t != seq!['.']),
            punto@ == seq!['.'],
            ruta@.len() > 0 && ruta@[0] == '/',
            todas.take(i as int).filter(pred).len() == 0,
        decreases partes@.len() - i,
    {
        proof {
            assert(partes@.map_values(|l: Vec<char>| l@)[i as int] == partes@[i as int]@);
            let u = todas.take(i + 1);
            assert(u.drop_last() =~= todas.take(i as int));
            assert(u.last() == todas[i as int]);
            reveal(Seq::filter);
        }
        if !iguales(partes[i].as_slice(), punto.as_slice()) {
            proof {
                lema_primer_componente(todas, i as int, pred);
                assert(componentes(ruta@) == todas.filter(pred));
            }
            return iguales(partes[i].as_slice(), caracteres("home").as_slice()) || iguales(
                partes[i].as_slice(),
                caracteres("root").as_slice(),
            );
        }
        i = i + 1;
    }
    proof {
        assert(todas.take(partes@.len() as int) =~= todas);
        assert(componentes(ruta@) == todas.filter(pred));
    }
    false
}

proof fn lema_primer_componente(s: Seq<Seq<char>>, i: int, p: spec_fn(Seq<char>) -> bool)
    requires
        0 <= i < s.len(),
        s.take(i).filter(p).len() == 0,
        p(s[i]),
    ensures
        s.filter(p).len() > 0,
        s.filter(p)[0] == s[i],
{
    reveal(Seq::filter);
    assert(s.take(i + 1).drop_last() =~= s.take(i));
    assert(s.take(i + 1).filter(p) =~= seq![s[i]]);
    assert(s =~= s.take(i + 1) + s.subrange(i + 1, s.len() as int));
    Seq::filter_distributes_over_add(s.take(i + 1), s.subrange(i + 1, s.len() as int), p);
}

/// The remembered processes: executable path and when it started, by pid.
pub struct Cache {
    mapa: HashMap<u32, (String, u64)>,
}

impl Cache {
    pub closed spec fn view(&self) -> Map<u32, (Seq<char>, u64)> {
        Map::new(
            |p: u32| self.mapa@.contains_key(p),
            |p: u32| (self.mapa@[p].0@, self.mapa@[p].1),
        )
    }
}

/// The entries still worth anything at `ahora`.
pub open spec fn vigentes(m: Map<u32, (Seq<char>, u64)>, ahora: u64) -> Map<u32, (Seq<char>, u64)> {
    Map::new(|p: u32| m.contains_key(p) && transcurrido(ahora, m[p].1) < MEMORIA, |p: u32| m[p])
}

/// The cache after seeing process `pid` start `ruta` at `ahora`: nothing
/// changes unless the executable is one worth remembering; then the stale
/// entries go, and the new one comes in unless the cache is full.
pub open spec fn tras_anotar(m: Map<u32, (Seq<char>, u64)>, pid: u32, ruta: Seq<char>, ahora: u64) -> Map<
    u32,
    (Seq<char>, u64),
> {
    if !de_una_persona(ruta) {
        m
    } else if vigentes(m, ahora).len() >= MAXIMO {
        vigentes(m, ahora)
    } else {
        vigentes(m, ahora).insert(pid, (ruta, ahora))
    }
}

/// An empty cache.
pub fn cache_nueva() -> (c: Cache)
    ensures
        c@ == Map::<u32, (Seq<char>, u64)>::empty(),
{
    let c = Cache { mapa: HashMap::new() };
    assert(c@ =~= Map::<u32, (Seq<char>, u64)>::empty());
    c
}

/// Remembers that process `pid` started the executable at `ruta` at `ahora`,
/// if it is one worth remembering.
pub fn anotar(cache: &mut Cache, pid: u32, ruta: String, ahora: u64)
    ensures
        final(cache)@ == tras_anotar(old(cache)@, pid, ruta@, ahora),
{
    if !interesa(ruta.as_str()) {
        return;
    }
    let ghost antes = cache@;
    let ghost objetivo = vigentes(antes, ahora);
    let ghost claves = cache.mapa.keys().remaining();
    let mut pids: Vec<u32> = Vec::new();
    for p in it: cache.mapa.keys()
        invariant
            pids@ == it.seq().take(it.index()).unref(),
            it.seq() == claves,
    {
        pids.push(*p);
        assert(it.seq().take(it.index() + 1).unref() =~= it.seq().take(it.index()).unref().push(*p));
    }
    assert(claves.take(claves.len() as int) =~= claves);
    assert(pids@ == claves.unref());
    assert(pids@.to_set() =~= antes.dom());
    let mut i: usize = 0;
    while i < pids.len()
        invariant
            i <= pids@.len(),
            pids@.to_set() == antes.dom(),
            pids@.no_duplicates(),
            objetivo == vigentes(antes, ahora),
            forall|p: u32|
                #![trigger cache@.contains_key(p)]
                (exists|j: int| 0 <= j < i && pids@[j] == p) ==> (cache@.contains_key(p)
                    <==> objetivo.contains_key(p)),
            forall|p: u32|
                #![trigger cache@.contains_key(p)]
                !(exists|j: int| 0 <= j < i && pids@[j] == p) ==> (cache@.contains_key(p)
                    <==> antes.contains_key(p)),
            forall|p: u32| #[trigger] cache@.contains_key(p) ==> cache@[p] == antes[p],
        decreases pids@.len() - i,
    {
        let p = pids[i];
        let quitar = match cache.mapa.get(&p) {
            Some(entrada) => {
                let cuando = entrada.1;
                let paso: u64 = if ahora >= cuando {
                    ahora - cuando
                } else {
                    0
                };
                paso >= MEMORIA
            },
            None => false,
        };
        let ghost previo = cache@;
        proof {
            if exists|j: int| 0 <= j < i && pids@[j] == p {
                let j = choose|j: int| 0 <= j < i && pids@[j] == p;
                assert(pids@[j] == pids@[i as int]);
            }
            assert(previo.contains_key(p) <==> antes.contains_key(p));
        }
        if quitar {
            cache.mapa.remove(&p);
            assert(cache@ =~= previo.remove(p));
        }
        proof {
            assert forall|x: u32|
                #![trigger cache@.contains_key(x)]
                (exists|j: int| 0 <= j < i + 1 && pids@[j] == x) implies (cache@.contains_key(x)
                    <==> objetivo.contains_key(x)) by {
                if x != p {
                    let j = choose|j: int| 0 <= j < i + 1 && pids@[j] == x;
                    assert(j != i);
                }
            }
            assert forall|x: u32|
                #![trigger cache@.contains_key(x)]
                !(exists|j: int| 0 <= j < i + 1 && pids@[j] == x) implies (cache@.contains_key(x)
                    <==> antes.contains_key(x)) by {
                assert(x != p);
            }
        }
        i = i + 1;
    }
    proof {
        assert forall|p: u32| #[trigger] objetivo.contains_key(p) implies cache@.contains_key(p) by {
            assert(pids@.to_set().contains(p));
            let j = choose|j: int| 0 <= j < pids@.len() && pids@[j] == p;
        }
        assert forall|p: u32| #[trigger] cache@.contains_key(p) implies objetivo.contains_key(p) by {
            assert(antes.contains_key(p));
            assert(pids@.to_set().contains(p));
            let j = choose|j: int| 0 <= j < pids@.len() && pids@[j] == p;
        }
        assert(cache@ =~= objetivo);
        assert(cache.mapa@.dom() =~= cache@.dom());
    }
    if cache.mapa.len() >= MAXIMO {
        return;
    }
    let ghost ruta_v = ruta@;
    let ghost previo = cache@;
    cache.mapa.insert(pid, (ruta, ahora));
    assert(cache@ =~= previo.insert(pid, (ruta_v, ahora)));
}

/// What is remembered about `pid` at `ahora`: its executable, if the entry is
/// there and not stale.
pub open spec fn recordada_en(m: Map<u32, (Seq<char>, u64)>, pid: u32, ahora: u64) -> Option<Seq<char>> {
    if m.contains_key(pid) && transcurrido(ahora, m[pid].1) < MEMORIA {
        Some(m[pid].0)
    } else {
        None
    }
}

/// The executable of a process that is gone, if it is remembered.
pub fn recordada(cache: &Cache, pid: u32, ahora: u64) -> (r: Option<String>)
    ensures
        match r {
            Some(s) => recordada_en(cache@, pid, ahora) == Some(s@),
            None => recordada_en(cache@, pid, ahora) is None,
        },
{
    match cache.mapa.get(&pid) {
        Some(entrada) => {
            let cuando = entrada.1;
            let paso: u64 = if ahora >= cuando {
                ahora - cuando
            } else {
                0
            };
            if paso < MEMORIA {
                Some(entrada.0.clone())
            } else {
                None
            }
        },
        None => None,
    }
}

/// Where the event starts in what arrives on the socket: after `nlmsghdr`
/// (16 bytes) and `cn_msg` (20 bytes).
pub const OFFSET_QUE: usize = 36;

/// Where the pid of an `exec` is: after the event's type, CPU and timestamp.
pub const OFFSET_PID: usize = 52;

/// The connector's event type for an `exec`.
pub const PROC_EVENT_EXEC: u32 = 2;

pub const CN_IDX_PROC: u32 = 1;

pub const CN_VAL_PROC: u32 = 1;

pub const PROC_CN_MCAST_LISTEN: u32 = 1;

pub const NLMSG_DONE: u16 = 3;

/// The pid a connector message reports, given its event type and its pid
/// field as read: only an `exec` counts, and a negative pid is none.
pub open spec fn pid_del_evento(que: u32, pid: i32) -> Option<u32> {
    if que != PROC_EVENT_EXEC || pid < 0 {
        None
    } else {
        Some(pid as u32)
    }
}

/// The pid a connector message reports, given its event type and its pid
/// field as they were read: only an `exec` counts, and a negative pid is none.
pub fn pid_del_mensaje(que: u32, pid: i32) -> (r: Option<u32>)
    ensures
        r == pid_del_evento(que, pid),
{
    if que != PROC_EVENT_EXEC || pid < 0 {
        None
    } else {
        Some(pid as u32)
    }
}

/// The pid a connector message reports when its fields are in the byte order
/// `le` (little-endian when true): the event type at `OFFSET_QUE`, the pid at
/// `OFFSET_PID`, both in that one order. None for a message too short to hold
/// them.
pub open spec fn pid_segun(m: Seq<u8>, le: bool) -> Option<u32> {
    if m.len() < OFFSET_PID + 4 {
        None
    } else {
        pid_del_evento(
            leer32(m, OFFSET_QUE as int, le) as u32,
            con_signo(leer32(m, OFFSET_PID as int, le)) as i32,
        )
    }
}

/// The pid of a connector message whose fields are in the byte order `le`,
/// if it reports an `exec`.
pub fn pid_en_orden(mensaje: &[u8], le: bool) -> (r: Option<u32>)
    ensures
        r == pid_segun(mensaje@, le),
{
    if mensaje.len() < OFFSET_PID + 4 {
        return None;
    }
    let que = leer_u32(mensaje, OFFSET_QUE, le);
    let pid = con_signo_de(leer_u32(mensaje, OFFSET_PID, le));
    pid_del_mensaje(que, pid)
}

/// The pid of a connector message, if it reports an `exec`. Forks, exits and
/// uid changes go through the connector too, and taking their pid would fill
/// the cache with rubbish. The kernel writes both fields in the machine's
/// byte order, which is learned once and used for both.
pub fn pid_de_exec(mensaje: &[u8]) -> (r: Option<u32>)
    ensures
        mensaje@.len() < OFFSET_PID + 4 ==> r is None,
        exists|le: bool| r == pid_segun(mensaje@, le),
{
    let le = orden_de_la_maquina();
    pid_en_orden(mensaje, le)
}

/// What a subscription message holds when its fields are in the byte order
/// `le`: the netlink header, the connector header and the request to listen.
/// The fields cover the whole message, so this fixes every byte.
pub open spec fn suscripcion_segun(m: Seq<u8>, pid_propio: u32, le: bool) -> bool {
    &&& m.len() == OFFSET_QUE + 4
    &&& leer32(m, 0, le) == (OFFSET_QUE + 4) as nat
    &&& leer16(m, 4, le) == NLMSG_DONE as nat
    &&& leer16(m, 6, le) == 0
    &&& leer32(m, 8, le) == 0
    &&& leer32(m, 12, le) == pid_propio as nat
    &&& leer32(m, 16, le) == CN_IDX_PROC as nat
    &&& leer32(m, 20, le) == CN_VAL_PROC as nat
    &&& leer32(m, 24, le) == 0
    &&& leer32(m, 28, le) == 0
    &&& leer16(m, 32, le) == 4
    &&& leer16(m, 34, le) == 0
    &&& leer32(m, 36, le) == PROC_CN_MCAST_LISTEN as nat
}

/// The message asking the kernel to start reporting process events, in the
/// machine's byte order, learned once and used for every field.
pub fn suscripcion(pid_propio: u32) -> (m: Vec<u8>)
    ensures
        exists|le: bool| suscripcion_segun(m@, pid_propio, le),
{
    let le = orden_de_la_maquina();
    suscripcion_en_orden(pid_propio, le)
}

/// The message asking the kernel to start reporting process events, every
/// field in the byte order `le`.
pub fn suscripcion_en_orden(pid_propio: u32, le: bool) -> (m: Vec<u8>)
    ensures
        suscripcion_segun(m@, pid_propio, le),
{
    let mut m: Vec<u8> = Vec::new();
    poner32(&mut m, 40, le);
    let ghost m1 = m@;
    poner16(&mut m, NLMSG_DONE, le);
    let ghost m2 = m@;
    poner16(&mut m, 0, le);
    let ghost m3 = m@;
    poner32(&mut m, 0, le);
    let ghost m4 = m@;
    poner32(&mut m, pid_propio, le);
    let ghost m5 = m@;
    poner32(&mut m, CN_IDX_PROC, le);
    let ghost m6 = m@;
    poner32(&mut m, CN_VAL_PROC, le);
    let ghost m7 = m@;
    poner32(&mut m, 0, le);
    let ghost m8 = m@;
    poner32(&mut m, 0, le);
    let ghost m9 = m@;
    poner16(&mut m, 4, le);
    let ghost m10 = m@;
    poner16(&mut m, 0, le);
    let ghost m11 = m@;
    poner32(&mut m, PROC_CN_MCAST_LISTEN, le);
    proof {
        assert(m@.take(36) == m11);
        assert(m11.take(34) == m10);
        assert(m10.take(32) == m9);
        assert(m9.take(28) == m8);
        assert(m8.take(24) == m7);
        assert(m7.take(20) == m6);
        assert(m6.take(16) == m5);
        assert(m5.take(12) == m4);
        assert(m4.take(8) == m3);
        assert(m3.take(6) == m2);
        assert(m2.take(4) == m1);
        assert forall|i: int| 0 <= i < 36 implies m@[i] == m11[i] by {
            assert(m@.take(36)[i] == m@[i]);
        }
        assert forall|i: int| 0 <= i < 34 implies m11[i] == m10[i] by {
            assert(m11.take(34)[i] == m11[i]);
        }
        assert forall|i: int| 0 <= i < 32 implies m10[i] == m9[i] by {
            assert(m10.take(32)[i] == m10[i]);
        }
        assert forall|i: int| 0 <= i < 28 implies m9[i] == m8[i] by {
            assert(m9.take(28)[i] == m9[i]);
        }
        assert forall|i: int| 0 <= i < 24 implies m8[i] == m7[i] by {
            assert(m8.take(24)[i] == m8[i]);
        }
        assert forall|i: int| 0 <= i < 20 implies m7[i] == m6[i] by {
            assert(m7.take(20)[i] == m7[i]);
        }
        assert forall|i: int| 0 <= i < 16 implies m6[i] == m5[i] by {
            assert(m6.take(16)[i] == m6[i]);
        }
        assert forall|i: int| 0 <= i < 12 implies m5[i] == m4[i] by {
            assert(m5.take(12)[i] == m5[i]);
        }
        assert forall|i: int| 0 <= i < 8 implies m4[i] == m3[i] by {
            assert(m4.take(8)[i] == m4[i]);
        }
        assert forall|i: int| 0 <= i < 6 implies m3[i] == m2[i] by {
            assert(m3.take(6)[i] == m3[i]);
        }
        assert forall|i: int| 0 <= i < 4 implies m2[i] == m1[i] by {
            assert(m2.take(4)[i] == m2[i]);
        }
    }
    m
}

} // verus!
