//! Reading AppArmor's denials out of the kernel log.
//!
//! The profiles VasakOS ships deny the camera and the microphone to
//! unverified applications, and they do it well: the kernel cuts the access
//! off. The trouble is that it does so **silently**. A block nobody can explain
//! is almost as bad as none: the person blames the hardware, or the
//! application. This adds no blocks and lifts none; it only reads them, so
//! they can be told and decided on.
//!
//! The kernel writes each denial like this:
//!
//! ```text
//! audit: type=1400 audit(1788539628.817:36077): apparmor="DENIED"
//!   operation="open" class="file" profile="vasak-appimage" name="/dev/video0"
//!   pid=167490 comm="prueba-vasak.Ap" requested_mask="r" denied_mask="r"
//!   fsuid=1000 ouid=0
//! ```
use vstd::prelude::*;
use crate::excepcion::PREFIJO;
use crate::policy::{anotada, decision_guardada, UserPolicy};
use crate::protocol::{Application, Decision, Resource};
use crate::texto::{
    anexar, buscar, cadena, caracteres, contiene, digitos_al_principio, empieza, es_digito, son_digitos, empieza_con,
    esta_en, iguales, leer_hasta, leer_natural, prefijo_numerico, primera, termina, termina_con,
    todos_digitos, tramo, valor_decimal,
};

verus! {

broadcast use vstd::string::group_string_axioms;

/// A point in time as the kernel log writes it: seconds since the epoch and a
/// fraction of a second.
#[derive(Debug, Clone, Copy, PartialEq, Eq, Structural)]
pub struct Momento {
    pub secs: u64,
    /// Always under a second.
    pub nanos: u32,
}

impl Momento {
    /// The start of the epoch, which stands for "no time known".
    pub fn cero() -> (m: Self)
        ensures
            m.secs == 0 && m.nanos == 0,
    {
        Momento { secs: 0, nanos: 0 }
    }

    pub fn as_secs(&self) -> (r: u64)
        ensures
            r == self.secs,
    {
        self.secs
    }

    /// The whole milliseconds of the fraction of a second.
    pub fn subsec_millis(&self) -> (r: u32)
        ensures
            r == self.nanos / 1_000_000,
    {
        self.nanos / 1_000_000
    }

    pub fn subsec_nanos(&self) -> (r: u32)
        ensures
            r == self.nanos,
    {
        self.nanos
    }
}

/// An AppArmor denial, already read.
#[derive(Debug, Clone, PartialEq, Eq)]
pub struct Denegacion {
    /// The profile that produced it.
    pub perfil: String,
    /// The path that was to be opened.
    pub ruta: String,
    /// Who tried. The real executable is found from it.
    pub pid: u32,
    /// Whom to tell.
    pub uid: u32,
    /// When it happened, by the kernel log's own stamp. It picks the right
    /// entry in the process cache when a pid has been reused.
    pub momento: Momento,
    /// Which permissions were denied, as the kernel reports them, so exactly
    /// that can be granted and no more.
    pub mascara: String,
}

/// The general profile, the one that confines every application with no
/// exception of its own.
pub const PERFIL_GENERAL: &'static str = "vasak-appimage";

/// Whether a profile is one of the service's own: the general one, or an
/// exception. Exceptions count as much as the general one: as soon as
/// something is granted to an application it gets a profile of its own, and
/// from then on the kernel reports **that** name.
pub open spec fn perfil_propio(perfil: Seq<char>) -> bool {
    perfil == PERFIL_GENERAL@ || empieza_con(perfil, PREFIJO@)
}

pub fn es_nuestro(perfil: &str) -> (r: bool)
    ensures
        r == perfil_propio(perfil@),
{
    let p = caracteres(perfil);
    iguales(p.as_slice(), caracteres(PERFIL_GENERAL).as_slice()) || empieza(
        p.as_slice(),
        caracteres(PREFIJO).as_slice(),
    )
}

/// The value of `clave="valor"` in a log line.
pub open spec fn valor_de(l: Seq<char>, clave: Seq<char>) -> Option<Seq<char>> {
    let aguja = clave + seq!['=', '"'];
    match primera(l, aguja) {
        None => None,
        Some(i) => {
            let resto = l.subrange(i + aguja.len(), l.len() as int);
            match primera(resto, seq!['"']) {
                None => None,
                Some(f) => Some(resto.subrange(0, f)),
            }
        },
    }
}

/// The value of `clave=123`, which goes without quotes. The space in front
/// keeps `uid=` from finding the `fsuid=` or the `ouid=` of the same line.
pub open spec fn numero_en(l: Seq<char>, clave: Seq<char>) -> Option<nat> {
    let aguja = seq![' '] + clave + seq!['='];
    match primera(l, aguja) {
        None => None,
        Some(i) => {
            let resto = l.subrange(i + aguja.len(), l.len() as int);
            leer_hasta(resto.take(prefijo_numerico(resto) as int), u32::MAX as nat)
        },
    }
}

fn valor_en(l: &[char], clave: &[char]) -> (r: Option<Vec<char>>)
    ensures
        match r {
            Some(v) => valor_de(l@, clave@) == Some(v@),
            None => valor_de(l@, clave@) is None,
        },
{
    let mut aguja: Vec<char> = Vec::new();
    anexar(&mut aguja, clave);
    aguja.push('=');
    aguja.push('"');
    assert(aguja@ =~= clave@ + seq!['=', '"']);
    match buscar(l, aguja.as_slice()) {
        None => None,
        Some(i) => {
            let resto = tramo(l, i + aguja.len(), l.len());
            let comilla = vec!['"'];
            assert(comilla@ =~= seq!['"']);
            match buscar(resto.as_slice(), comilla.as_slice()) {
                None => None,
                Some(f) => Some(tramo(resto.as_slice(), 0, f)),
            }
        },
    }
}

/// The value of `clave="valor"` in a log line.
pub fn texto_de(linea: &str, clave: &str) -> (r: Option<String>)
    ensures
        match r {
            Some(v) => valor_de(linea@, clave@) == Some(v@),
            None => valor_de(linea@, clave@) is None,
        },
{
    let l = caracteres(linea);
    let c = caracteres(clave);
    match valor_en(l.as_slice(), c.as_slice()) {
        Some(v) => Some(cadena(v.as_slice())),
        None => None,
    }
}

fn numero_en_linea(l: &[char], clave: &[char]) -> (r: Option<u32>)
    ensures
        match r {
            Some(v) => numero_en(l@, clave@) == Some(v as nat),
            None => numero_en(l@, clave@) is None,
        },
{
    let mut aguja: Vec<char> = Vec::new();
    aguja.push(' ');
    anexar(&mut aguja, clave);
    aguja.push('=');
    assert(aguja@ =~= seq![' '] + clave@ + seq!['=']);
    match buscar(l, aguja.as_slice()) {
        None => None,
        Some(i) => {
            let resto = tramo(l, i + aguja.len(), l.len());
            let fin = digitos_al_principio(resto.as_slice());
            let digitos = tramo(resto.as_slice(), 0, fin);
            assert(digitos@ =~= resto@.take(fin as int));
            match leer_natural(digitos.as_slice(), 0xffff_ffff) {
                Some(v) => Some(v as u32),
                None => None,
            }
        },
    }
}

/// The value of `clave=123` in a log line.
pub fn numero_de(linea: &str, clave: &str) -> (r: Option<u32>)
    ensures
        match r {
            Some(v) => numero_en(linea@, clave@) == Some(v as nat),
            None => numero_en(linea@, clave@) is None,
        },
{
    let l = caracteres(linea);
    let c = caracteres(clave);
    numero_en_linea(l.as_slice(), c.as_slice())
}

/// The stamp of a log line: what is between `audit(` and the next `:`.
pub open spec fn marca_de(l: Seq<char>) -> Option<Seq<char>> {
    match primera(l, "audit("@) {
        None => None,
        Some(i) => {
            let resto = l.subrange(i + "audit("@.len(), l.len() as int);
            match primera(resto, seq![':']) {
                None => None,
                Some(f) => Some(resto.take(f)),
            }
        },
    }
}

/// When a denial happened, by the stamp of the log line: whole seconds, and
/// the milliseconds after the point, read as milliseconds whatever their
/// number of digits (`.8` is 800 ms, not 8). Nothing that is not a plain
/// number is read, so an impossible stamp gives no time rather than a wrong
/// one.
pub open spec fn momento_en(l: Seq<char>) -> Option<Momento> {
    match marca_de(l) {
        None => None,
        Some(m) => {
            let enteros = match primera(m, seq!['.']) {
                Some(p) => m.take(p),
                None => m,
            };
            let decimales = match primera(m, seq!['.']) {
                Some(p) => m.subrange(p + 1, m.len() as int),
                None => Seq::empty(),
            };
            match leer_hasta(enteros, u64::MAX as nat) {
                None => None,
                Some(s) => if decimales.len() == 0 {
                    Some(Momento { secs: s as u64, nanos: 0 })
                } else if !todos_digitos(decimales) {
                    None
                } else {
                    Some(
                        Momento {
                            secs: s as u64,
                            nanos: (valor_decimal((decimales + "000"@).take(3)) * 1_000_000) as u32,
                        },
                    )
                },
            }
        },
    }
}

proof fn lema_tres_digitos(s: Seq<char>)
    requires
        s.len() == 3,
        todos_digitos(s),
    ensures
        valor_decimal(s) < 1000,
{
    let a = s.drop_last();
    let b = a.drop_last();
    let c = b.drop_last();
    assert(c =~= Seq::<char>::empty());
    assert(valor_decimal(c) == 0);
    assert(b.last() == s[0] && a.last() == s[1] && s.last() == s[2]);
    assert(es_digito(s[0]) && es_digito(s[1]) && es_digito(s[2]));
    assert(valor_decimal(b) == valor_decimal(c) * 10 + (b.last() as int - '0' as int));
    assert(valor_decimal(b) <= 9);
    assert(valor_decimal(a) == valor_decimal(b) * 10 + (a.last() as int - '0' as int));
    assert(valor_decimal(a) <= 99);
    assert(valor_decimal(s) == valor_decimal(a) * 10 + (s.last() as int - '0' as int));
}

/// When a denial happened, by the stamp of its log line.
pub fn momento_de(linea: &str) -> (r: Option<Momento>)
    ensures
        r == momento_en(linea@),
{
    let l = caracteres(linea);
    let abre = caracteres("audit(");
    let i = match buscar(l.as_slice(), abre.as_slice()) {
        Some(i) => i,
        None => return None,
    };
    let resto = tramo(l.as_slice(), i + abre.len(), l.len());
    let dos_puntos = vec![':'];
    assert(dos_puntos@ =~= seq![':']);
    let f = match buscar(resto.as_slice(), dos_puntos.as_slice()) {
        Some(f) => f,
        None => return None,
    };
    let marca = tramo(resto.as_slice(), 0, f);
    assert(marca@ =~= resto@.take(f as int));
    let punto = vec!['.'];
    assert(punto@ =~= seq!['.']);
    let (enteros, decimales) = match buscar(marca.as_slice(), punto.as_slice()) {
        Some(p) => (tramo(marca.as_slice(), 0, p), tramo(marca.as_slice(), p + 1, marca.len())),
        None => (tramo(marca.as_slice(), 0, marca.len()), Vec::new()),
    };
    proof {
        assert(marca@.subrange(0, marca@.len() as int) =~= marca@);
        if let Some(p) = primera(marca@, seq!['.']) {
            assert(enteros@ =~= marca@.take(p));
        } else {
            assert(decimales@ =~= Seq::<char>::empty());
        }
    }
    let segundos = match leer_natural(enteros.as_slice(), 0xffff_ffff_ffff_ffff) {
        Some(s) => s,
        None => return None,
    };
    if decimales.len() == 0 {
        return Some(Momento { secs: segundos, nanos: 0 });
    }
    if !son_digitos(decimales.as_slice()) {
        return None;
    }
    let mut completa: Vec<char> = Vec::new();
    anexar(&mut completa, decimales.as_slice());
    anexar(&mut completa, caracteres("000").as_slice());
    proof {
        reveal_strlit("000");
    }
    let tres = tramo(completa.as_slice(), 0, 3);
    proof {
        assert(tres@ =~= (decimales@ + "000"@).take(3));
        assert forall|j: int| 0 <= j < 3 implies '0' <= #[trigger] tres@[j] <= '9' by {
            if j < decimales@.len() {
                assert(tres@[j] == decimales@[j]);
            } else {
                assert(tres@[j] == "000"@[j - decimales@.len()]);
            }
        }
        assert(todos_digitos(tres@));
        lema_tres_digitos(tres@);
        assert(crate::texto::numero_natural(tres@) == Some(valor_decimal(tres@)));
    }
    let milesimas = match leer_natural(tres.as_slice(), 999) {
        Some(m) => m,
        None => return None,
    };
    Some(Momento { secs: segundos, nanos: (milesimas * 1_000_000) as u32 })
}

/// Whether a log line is an AppArmor denial this service can read: only
/// `DENIED` (in complain mode the kernel writes `ALLOWED`, and telling about
/// something that was not blocked would be noise), with a profile, a path, a
/// pid and the uid of who tried.
pub open spec fn es_denegacion(l: Seq<char>) -> bool {
    &&& valor_de(l, "apparmor"@) == Some("DENIED"@)
    &&& valor_de(l, "profile"@) is Some
    &&& valor_de(l, "name"@) is Some
    &&& numero_en(l, "pid"@) is Some
    &&& numero_en(l, "fsuid"@) is Some
}

/// `r` is what reading the line `l` gives: nothing when it is not a denial,
/// and otherwise the denial with each of its fields as the line writes it.
pub open spec fn lectura(l: Seq<char>, r: Option<Denegacion>) -> bool {
    match r {
        None => !es_denegacion(l),
        Some(d) => {
            &&& es_denegacion(l)
            &&& d.perfil@ == valor_de(l, "profile"@).unwrap()
            &&& d.ruta@ == valor_de(l, "name"@).unwrap()
            &&& d.pid as nat == numero_en(l, "pid"@).unwrap()
            &&& d.uid as nat == numero_en(l, "fsuid"@).unwrap()
            &&& d.momento == match momento_en(l) {
                Some(m) => m,
                None => Momento { secs: 0, nanos: 0 },
            }
            &&& d.mascara@ == match valor_de(l, "denied_mask"@) {
                Some(m) => m,
                None => "r"@,
            }
        },
    }
}

/// Reads a kernel log line. `None` for everything that is not a denial, which
/// is most of what goes through there.
///
/// Third-party profiles are not dropped here: they are told apart afterwards
/// with [`es_nuestro`]. `fsuid` and not `ouid`: the first is who tried, the
/// second whose file it is. Without a `denied_mask` the smallest guess, `r`,
/// is taken: the least is granted and, if more was needed, a block shows up
/// again.
pub fn parsear(linea: &str) -> (r: Option<Denegacion>)
    ensures
        lectura(linea@, r),
{
    let l = caracteres(linea);
    let estado = match valor_en(l.as_slice(), caracteres("apparmor").as_slice()) {
        Some(v) => v,
        None => return None,
    };
    if !iguales(estado.as_slice(), caracteres("DENIED").as_slice()) {
        return None;
    }
    let perfil = match valor_en(l.as_slice(), caracteres("profile").as_slice()) {
        Some(v) => v,
        None => return None,
    };
    let ruta = match valor_en(l.as_slice(), caracteres("name").as_slice()) {
        Some(v) => v,
        None => return None,
    };
    let pid = match numero_en_linea(l.as_slice(), caracteres("pid").as_slice()) {
        Some(v) => v,
        None => return None,
    };
    let uid = match numero_en_linea(l.as_slice(), caracteres("fsuid").as_slice()) {
        Some(v) => v,
        None => return None,
    };
    let momento = match momento_de(linea) {
        Some(m) => m,
        None => Momento::cero(),
    };
    let mascara = match valor_en(l.as_slice(), caracteres("denied_mask").as_slice()) {
        Some(v) => cadena(v.as_slice()),
        None => "r".to_owned(),
    };
    Some(
        Denegacion {
            perfil: cadena(perfil.as_slice()),
            ruta: cadena(ruta.as_slice()),
            pid,
            uid,
            momento,
            mascara,
        },
    )
}

/// The suffixes the kernel reports when something that proves who you are is
/// blocked. They are compared against the end of the resolved absolute path,
/// and by segment, with the slash in front, so `/home/ana/project/.sshconfig`
/// does not count as `.ssh`. The list has to be what the exception profiles
/// deny for the credentials; a denial there and not here would block with
/// nobody told.
pub open spec fn marcas_de_credencial() -> Seq<Seq<char>> {
    seq![
        "/.ssh/"@,
        "/.gnupg/"@,
        "/.local/share/vasak-keyring/"@,
        "/ssh-agent.socket"@,
        "/gnupg/"@,
        "/.netrc"@,
        "/.git-credentials"@,
        "/.npmrc"@,
        "/.aws/"@,
        "/.kube/"@,
        "/.config/gh/"@,
        "/.docker/config.json"@,
    ]
}

/// A mark ending in `/` is a directory, anywhere in the path; any other is a
/// file, which the path has to end in, so `/home/ana/.netrc.bak` does not
/// count.
pub open spec fn coincide_con(ruta: Seq<char>, marca: Seq<char>) -> bool {
    if marca.len() > 0 && marca.last() == '/' {
        contiene(ruta, marca)
    } else {
        termina_con(ruta, marca)
    }
}

pub open spec fn es_credencial_spec(ruta: Seq<char>) -> bool {
    exists|i: int|
        0 <= i < marcas_de_credencial().len() && coincide_con(ruta, #[trigger] marcas_de_credencial()[i])
}

/// The credential marks, in order.
pub fn credenciales() -> (v: Vec<&'static str>)
    ensures
        v@.map_values(|s: &'static str| s@) == marcas_de_credencial(),
{
    let mut v: Vec<&'static str> = Vec::new();
    v.push("/.ssh/");
    v.push("/.gnupg/");
    v.push("/.local/share/vasak-keyring/");
    v.push("/ssh-agent.socket");
    v.push("/gnupg/");
    v.push("/.netrc");
    v.push("/.git-credentials");
    v.push("/.npmrc");
    v.push("/.aws/");
    v.push("/.kube/");
    v.push("/.config/gh/");
    v.push("/.docker/config.json");
    assert(v@.map_values(|s: &'static str| s@) =~= marcas_de_credencial());
    v
}

/// Whether a blocked path is a credential.
pub fn es_credencial(ruta: &str) -> (r: bool)
    ensures
        r == es_credencial_spec(ruta@),
{
    let c = caracteres(ruta);
    let marcas = credenciales();
    let mut i: usize = 0;
    while i < marcas.len()
        invariant
            i <= marcas@.len(),
            c@ == ruta@,
            marcas@.map_values(|s: &'static str| s@) == marcas_de_credencial(),
            forall|j: int| 0 <= j < i ==> !coincide_con(ruta@, #[trigger] marcas_de_credencial()[j]),
        decreases marcas@.len() - i,
    {
        let m = caracteres(marcas[i]);
        assert(marcas_de_credencial()[i as int] == m@);
        let coincide = if m.len() > 0 && m[m.len() - 1] == '/' {
            esta_en(c.as_slice(), m.as_slice())
        } else {
            termina(c.as_slice(), m.as_slice())
        };
        if coincide {
            return true;
        }
        i = i + 1;
    }
    false
}

/// The resource a blocked path is, among the ones the service's profiles
/// deny. Capture devices end in `c` in ALSA and playback ones in `p`; the
/// profile only denies capture, so a playback device here is not the
/// microphone.
pub open spec fn recurso_de_ruta(ruta: Seq<char>) -> Option<Resource> {
    if empieza_con(ruta, "/dev/video"@) {
        Some(Resource::Camera)
    } else if empieza_con(ruta, "/dev/snd/pcm"@) && ruta.len() > 0 && ruta.last() == 'c' {
        Some(Resource::Microphone)
    } else if es_credencial_spec(ruta) {
        Some(Resource::Credentials)
    } else {
        None
    }
}

/// Which resource the blocked path is.
pub fn recurso_de(ruta: &str) -> (r: Option<Resource>)
    ensures
        r == recurso_de_ruta(ruta@),
{
    let c = caracteres(ruta);
    if empieza(c.as_slice(), caracteres("/dev/video").as_slice()) {
        return Some(Resource::Camera);
    }
    if empieza(c.as_slice(), caracteres("/dev/snd/pcm").as_slice()) && c.len() > 0 && c[c.len()
        - 1] == 'c' {
        return Some(Resource::Microphone);
    }
    if es_credencial(ruta) {
        return Some(Resource::Credentials);
    }
    None
}

/// What is done with a denial read from the kernel log.
#[derive(Debug, Clone, Copy, PartialEq, Eq, Structural)]
pub enum Clasificacion {
    /// Another profile of the system blocked it: there is no named resource
    /// to offer, only the path, and it goes to the list of local exceptions.
    Ajeno,
    /// One of the service's profiles blocked something this module cannot
    /// name: the profile and this code have drifted apart, which is worth a
    /// line in the journal and nothing more.
    SinRecurso,
    /// One of the service's profiles blocked this resource: it is told and
    /// noted in the policy.
    Propio(Resource),
}

/// How a denial is handled, from its profile and its path.
pub open spec fn clasificacion(perfil: Seq<char>, ruta: Seq<char>) -> Clasificacion {
    if !perfil_propio(perfil) {
        Clasificacion::Ajeno
    } else {
        match recurso_de_ruta(ruta) {
            Some(r) => Clasificacion::Propio(r),
            None => Clasificacion::SinRecurso,
        }
    }
}

/// Sorts a denial before anything is told or written.
pub fn clasificar(denegacion: &Denegacion) -> (r: Clasificacion)
    ensures
        r == clasificacion(denegacion.perfil@, denegacion.ruta@),
{
    if !es_nuestro(denegacion.perfil.as_str()) {
        return Clasificacion::Ajeno;
    }
    match recurso_de(denegacion.ruta.as_str()) {
        Some(r) => Clasificacion::Propio(r),
        None => Clasificacion::SinRecurso,
    }
}

/// Notes in the policy that this application wanted the resource and did not
/// have it, so it shows up in the list and something can be decided about it.
/// Only when nothing was decided before: if somebody already said no, this
/// adds nothing, and if they said yes, writing "denied" would erase their
/// decision over a block that probably came from the exception not being
/// loaded yet. Says whether anything was written.
pub fn registrar_el_intento(
    politica: &mut UserPolicy,
    aplicacion: &Application,
    resource_id: &str,
) -> (r: bool)
    requires
        old(politica).bien_formada(),
    ensures
        final(politica).bien_formada(),
        r == (decision_guardada(old(politica)@, aplicacion.binary_path@, resource_id@)
            == Decision::Unknown),
        r ==> final(politica)@ == anotada(
            old(politica)@,
            aplicacion.binary_path@,
            aplicacion.display_name@,
            aplicacion.provenance,
            resource_id@,
            Decision::Denied,
            false,
        ),
        !r ==> final(politica)@ == old(politica)@,
{
    if politica.decision(aplicacion.binary_path.as_str(), resource_id) != Decision::Unknown {
        return false;
    }
    politica.record(aplicacion, resource_id, Decision::Denied, false);
    true
}

/// The service's own profiles are exactly the general one, `vasak-appimage`,
/// and the exceptions, whose names begin with `vasak-permitida`; every
/// exception name this library writes is one of them. Any other profile, even
/// one of the system's own `vasak-` profiles, is someone else's.
pub proof fn solo_son_nuestros_los_perfiles_del_servicio(p: Seq<char>, ruta: Seq<char>)
    ensures
        perfil_propio(p) <==> (p == "vasak-appimage"@ || empieza_con(p, "vasak-permitida"@)),
        perfil_propio(crate::excepcion::nombre_de_perfil(ruta)),
{
    let n = crate::excepcion::nombre_de_perfil(ruta);
    assert(n.subrange(0, PREFIJO@.len() as int) =~= PREFIJO@);
}

} // verus!
