//! Exception profiles: letting **one** application have what the general
//! AppArmor profile denies to all of them.
//!
//! The general profile attaches to every AppImage at once, so nothing can be
//! excepted by editing it. The way out is a second profile attached to the
//! **exact path** of that application and without the denials: AppArmor picks
//! the most specific match, so that one goes free and the rest stay blocked.
//!
//! The risky part is not writing the text but representing the path. The
//! attachment string admits wildcards: a path with `*`, `?`, `[` or `{` is not
//! read literally, and an exception meant for one application could end up
//! covering others. So paths that cannot be written without ambiguity are
//! refused rather than escaped. Writing the file and loading it into the
//! kernel is left to the program around this library.
use vstd::prelude::*;
use crate::policy::{decision_guardada, UserPolicy};
use crate::protocol::{Decision, Resource};
use crate::texto::{
    anexar, aparece_en, cadena, caracteres, decimal, en_decimal, es_alfanumerico_ascii, es_digito,
    lema_decimal_se_relee, todos_digitos,
};

verus! {

broadcast use vstd::string::group_string_axioms;

/// Why a path cannot have an exception.
#[derive(Debug, Clone, Copy, PartialEq, Eq, Structural)]
pub enum Motivo {
    /// Without an absolute path there is nothing to attach to.
    NoEsAbsoluta,
    /// It holds a character AppArmor would read as a wildcard, or that would
    /// break the syntax of the file.
    CaracterAmbiguo(char),
}

impl Motivo {
    /// The reason in words, as it is shown to whoever asked for the change.
    pub fn describir(&self) -> (r: String)
        ensures
            r@ == match *self {
                Motivo::NoEsAbsoluta => "la ruta no es absoluta"@,
                Motivo::CaracterAmbiguo(c) => "la ruta lleva '"@ + seq![c]
                    + "', que AppArmor podría interpretar como comodín"@,
            },
    {
        match self {
            Motivo::NoEsAbsoluta => "la ruta no es absoluta".to_owned(),
            Motivo::CaracterAmbiguo(c) => {
                let mut v = caracteres("la ruta lleva '");
                v.push(*c);
                anexar(&mut v, caracteres("', que AppArmor podría interpretar como comodín").as_slice());
                cadena(v.as_slice())
            },
        }
    }
}

/// The characters not accepted in the path of an exception: the first four are
/// AppArmor wildcards, the rest would break the file's syntax or its quoting.
pub const AMBIGUOS: [char; 10] = ['*', '?', '[', ']', '{', '}', '"', '\\', '\n', '\r'];

pub open spec fn es_ambiguo(c: char) -> bool {
    c == '*' || c == '?' || c == '[' || c == ']' || c == '{' || c == '}' || c == '"' || c == '\\'
        || c == '\n' || c == '\r'
}

/// What every exception profile's name begins with. The kernel log watcher
/// recognises the service's own profiles by it.
pub const PREFIJO: &'static str = "vasak-permitida";

/// How one character of a path is written in a profile name: `/` as `_`,
/// letters, digits and `.` as they are, `_` as `-_`, `-` as `--`, and
/// anything else as its code between hyphens. No way of writing one
/// character begins another's, so a name reads back into exactly one path.
pub open spec fn codigo(c: char) -> Seq<char> {
    if c == '/' {
        seq!['_']
    } else if c == '_' {
        seq!['-', '_']
    } else if c == '-' {
        seq!['-', '-']
    } else if es_alfanumerico_ascii(c) || c == '.' {
        seq![c]
    } else {
        seq!['-'] + decimal((c as u32) as nat) + seq!['-']
    }
}

/// A path written as a profile name, character by character.
pub open spec fn codificar(s: Seq<char>) -> Seq<char>
    decreases s.len(),
{
    if s.len() == 0 {
        Seq::empty()
    } else {
        codificar(s.drop_last()) + codigo(s.last())
    }
}

/// The name of the exception profile for a path: derived from the whole path,
/// so two applications with the same file name in different folders get
/// different profiles.
pub open spec fn nombre_de_perfil(ruta: Seq<char>) -> Seq<char> {
    PREFIJO@ + codificar(ruta)
}

/// A character AppArmor accepts in a profile name as this library writes them.
pub open spec fn caracter_de_nombre(c: char) -> bool {
    es_alfanumerico_ascii(c) || c == '-' || c == '_' || c == '.'
}

/// The name of the exception profile for `ruta`.
pub fn nombre_de(ruta: &str) -> (r: String)
    ensures
        r@ == nombre_de_perfil(ruta@),
{
    let c = caracteres(ruta);
    let mut nombre = caracteres(PREFIJO);
    let mut i: usize = 0;
    while i < c.len()
        invariant
            i <= c.len(),
            nombre@ == PREFIJO@ + codificar(c@.take(i as int)),
        decreases c.len() - i,
    {
        let x = c[i];
        let ghost antes = nombre@;
        if x == '/' {
            nombre.push('_');
        } else if x == '_' {
            nombre.push('-');
            nombre.push('_');
        } else if x == '-' {
            nombre.push('-');
            nombre.push('-');
        } else if ('0' <= x && x <= '9') || ('a' <= x && x <= 'z') || ('A' <= x && x <= 'Z') || x
            == '.' {
            nombre.push(x);
        } else {
            nombre.push('-');
            let codigo_: u32 = x as u32;
            let numero = en_decimal(codigo_ as u64);
            anexar(&mut nombre, numero.as_slice());
            nombre.push('-');
            assert(nombre@ =~= antes + codigo(x));
        }
        proof {
            let t = c@.take(i + 1);
            assert(t.drop_last() =~= c@.take(i as int));
            assert(t.last() == x);
            assert(nombre@ =~= antes + codigo(x));
        }
        i = i + 1;
    }
    assert(c@.take(c.len() as int) =~= c@);
    cadena(nombre.as_slice())
}

proof fn lema_codificar_valido(s: Seq<char>)
    ensures
        forall|i: int|
            0 <= i < codificar(s).len() ==> caracter_de_nombre(#[trigger] codificar(s)[i]),
    decreases s.len(),
{
    if s.len() > 0 {
        lema_codificar_valido(s.drop_last());
        let c = s.last();
        let a = codificar(s.drop_last());
        let b = codigo(c);
        lema_decimal_se_relee((c as u32) as nat);
        assert forall|i: int| 0 <= i < b.len() implies caracter_de_nombre(#[trigger] b[i]) by {
            if !(c == '_' || c == '/' || es_alfanumerico_ascii(c) || c == '-' || c == '.') {
                if 0 < i < b.len() - 1 {
                    assert(b[i] == decimal((c as u32) as nat)[i - 1]);
                    assert(es_digito(decimal((c as u32) as nat)[i - 1]));
                }
            }
        }
        assert forall|i: int|
            0 <= i < codificar(s).len() implies caracter_de_nombre(#[trigger] codificar(s)[i]) by {
            if i < a.len() {
                assert(codificar(s)[i] == a[i]);
            } else {
                assert(codificar(s)[i] == b[i - a.len()]);
            }
        }
    }
}

/// A profile name only ever holds letters, digits, `-`, `_` and `.`, which is
/// what AppArmor accepts, whatever the path it was made from.
pub proof fn el_nombre_no_lleva_caracteres_raros(ruta: Seq<char>)
    ensures
        forall|i: int|
            0 <= i < nombre_de_perfil(ruta).len() ==> caracter_de_nombre(
                #[trigger] nombre_de_perfil(ruta)[i],
            ),
{
    reveal_strlit("vasak-permitida");
    lema_codificar_valido(ruta);
    let p = PREFIJO@;
    let n = nombre_de_perfil(ruta);
    assert forall|i: int| 0 <= i < n.len() implies caracter_de_nombre(#[trigger] n[i]) by {
        if i < p.len() {
            assert(n[i] == p[i]);
        } else {
            assert(n[i] == codificar(ruta)[i - p.len()]);
        }
    }
}

/// What the general profile denies, and how each denial is written. It has to
/// be what `/etc/apparmor.d/vasak-appimage` holds: a denial added there and not
/// here would be lifted, without anyone meaning to, by any partial exception.
///
/// The credentials are several rules and one decision: nobody distinguishes
/// between trusting a program with their SSH key and trusting it with their
/// GPG key. `rwkl` and not `rwk`: without `l` a hard link to the file can be
/// made from outside the denied directory and read from there.
pub open spec fn tabla_de_negaciones() -> Seq<(Resource, Seq<Seq<char>>)> {
    seq![
        (Resource::Camera, seq!["audit deny /dev/video* rwk,"@]),
        (Resource::Microphone, seq!["audit deny /dev/snd/pcmC*D*c rwk,"@]),
        (Resource::Credentials, seq![
            "audit deny @{HOME}/.ssh/** rwkl,"@,
            "audit deny @{HOME}/.gnupg/** rwkl,"@,
            "audit deny @{HOME}/.local/share/vasak-keyring/** rwkl,"@,
            "audit deny /run/user/*/ssh-agent.socket rw,"@,
            "audit deny /run/user/*/gnupg/** rw,"@,
            "audit deny @{HOME}/.netrc rwkl,"@,
            "audit deny @{HOME}/.git-credentials rwkl,"@,
            "audit deny @{HOME}/.npmrc rwkl,"@,
            "audit deny @{HOME}/.aws/** rwkl,"@,
            "audit deny @{HOME}/.kube/** rwkl,"@,
            "audit deny @{HOME}/.config/gh/** rwkl,"@,
            "audit deny @{HOME}/.docker/config.json rwkl,"@,
        ]),
    ]
}

pub open spec fn vista_de_reglas(v: Seq<&'static str>) -> Seq<Seq<char>> {
    v.map_values(|s: &'static str| s@)
}

pub open spec fn vista_de_negaciones(t: Seq<(Resource, Vec<&'static str>)>) -> Seq<
    (Resource, Seq<Seq<char>>),
> {
    t.map_values(|e: (Resource, Vec<&'static str>)| (e.0, vista_de_reglas(e.1@)))
}

/// The denials of the general profile, resource by resource.
pub fn negaciones() -> (t: Vec<(Resource, Vec<&'static str>)>)
    ensures
        vista_de_negaciones(t@) == tabla_de_negaciones(),
{
    let mut t: Vec<(Resource, Vec<&'static str>)> = Vec::new();
    let mut camara: Vec<&'static str> = Vec::new();
    camara.push("audit deny /dev/video* rwk,");
    t.push((Resource::Camera, camara));
    let mut microfono: Vec<&'static str> = Vec::new();
    microfono.push("audit deny /dev/snd/pcmC*D*c rwk,");
    t.push((Resource::Microphone, microfono));
    let mut credenciales: Vec<&'static str> = Vec::new();
    credenciales.push("audit deny @{HOME}/.ssh/** rwkl,");
    credenciales.push("audit deny @{HOME}/.gnupg/** rwkl,");
    credenciales.push("audit deny @{HOME}/.local/share/vasak-keyring/** rwkl,");
    credenciales.push("audit deny /run/user/*/ssh-agent.socket rw,");
    credenciales.push("audit deny /run/user/*/gnupg/** rw,");
    credenciales.push("audit deny @{HOME}/.netrc rwkl,");
    credenciales.push("audit deny @{HOME}/.git-credentials rwkl,");
    credenciales.push("audit deny @{HOME}/.npmrc rwkl,");
    credenciales.push("audit deny @{HOME}/.aws/** rwkl,");
    credenciales.push("audit deny @{HOME}/.kube/** rwkl,");
    credenciales.push("audit deny @{HOME}/.config/gh/** rwkl,");
    credenciales.push("audit deny @{HOME}/.docker/config.json rwkl,");
    t.push((Resource::Credentials, credenciales));
    assert(vista_de_reglas(t@[0].1@) =~= tabla_de_negaciones()[0].1);
    assert(vista_de_reglas(t@[1].1@) =~= tabla_de_negaciones()[1].1);
    assert(vista_de_reglas(t@[2].1@) =~= tabla_de_negaciones()[2].1);
    assert(vista_de_negaciones(t@) =~= tabla_de_negaciones());
    t
}

/// Everything the exception profile says before its name.
pub const CABECERA: &'static str = "# ARCHIVO GENERADO — no editar a mano.\n#\n# Excepción para una aplicación: le devuelve el acceso que el perfil general\n# /etc/apparmor.d/vasak-appimage le niega a todas.\n#\n# Existe porque ese perfil se engancha a todos los AppImage a la vez y no se\n# puede exceptuar uno desde ahí. AppArmor elige la coincidencia más específica,\n# así que este perfil —enganchado a una ruta exacta— le gana al general.\n#\n# Se borra para volver a bloquear la aplicación.\n\nabi <abi/4.0>,\n\ninclude <tunables/global>\n\nprofile ";

/// Everything between the exception profile's path and its denials.
pub const CUERPO: &'static str = "\" {\n  # Todo permitido, y después se vuelve a negar lo que esta aplicación no tiene\n  # concedido. Sin las negaciones de abajo, la excepción devolvería de una vez\n  # todo lo que el perfil general quita.\n  file,\n  network,\n  unix,\n  signal,\n  ptrace,\n  dbus,\n  capability,\n  mount,\n  umount,\n  pivot_root,\n  change_profile,\n  io_uring,\n  mqueue,\n  userns,\n";

/// Each rule on a line of its own, indented, with a blank line around it.
pub open spec fn lineas(reglas: Seq<Seq<char>>) -> Seq<char>
    decreases reglas.len(),
{
    if reglas.len() == 0 {
        Seq::empty()
    } else {
        lineas(reglas.drop_last()) + "\n  "@ + reglas.last() + "\n"@
    }
}

/// The denials of every resource of `t` that is not among `permitidos`, in
/// the order of the table.
pub open spec fn negaciones_de(t: Seq<(Resource, Seq<Seq<char>>)>, permitidos: Seq<Resource>) -> Seq<
    char,
>
    decreases t.len(),
{
    if t.len() == 0 {
        Seq::empty()
    } else {
        negaciones_de(t.drop_last(), permitidos) + if permitidos.contains(t.last().0) {
            Seq::empty()
        } else {
            lineas(t.last().1)
        }
    }
}

/// The text of the exception profile for `ruta`: attached to that exact path,
/// allowing everything, and denying again what is not among `permitidos`.
pub open spec fn texto_de_perfil(ruta: Seq<char>, permitidos: Seq<Resource>) -> Seq<char> {
    let nombre = nombre_de_perfil(ruta);
    CABECERA@ + nombre + " \""@ + ruta + CUERPO@ + negaciones_de(tabla_de_negaciones(), permitidos)
        + "\n  include if exists <local/"@ + nombre + ">\n}\n"@
}

/// The first character of `s` at or after `i` that cannot go in an
/// exception's path.
pub open spec fn primer_ambiguo_desde(s: Seq<char>, i: int) -> Option<char>
    decreases s.len() - i,
{
    if i < 0 || i >= s.len() {
        None
    } else if es_ambiguo(s[i]) {
        Some(s[i])
    } else {
        primer_ambiguo_desde(s, i + 1)
    }
}

/// What `perfil_para` gives for a path and a set of allowed resources.
pub open spec fn resultado_de_perfil(ruta: Seq<char>, permitidos: Seq<Resource>) -> Result<
    Seq<char>,
    Motivo,
> {
    if !(ruta.len() > 0 && ruta[0] == '/') {
        Err(Motivo::NoEsAbsoluta)
    } else {
        match primer_ambiguo_desde(ruta, 0) {
            Some(c) => Err(Motivo::CaracterAmbiguo(c)),
            None => Ok(texto_de_perfil(ruta, permitidos)),
        }
    }
}

fn contiene_recurso(v: &[Resource], r: Resource) -> (b: bool)
    ensures
        b == v@.contains(r),
{
    let mut i: usize = 0;
    while i < v.len()
        invariant
            i <= v.len(),
            forall|j: int| 0 <= j < i ==> v@[j] != r,
        decreases v.len() - i,
    {
        if v[i] == r {
            assert(v@[i as int] == r);
            return true;
        }
        i = i + 1;
    }
    false
}

/// The text of the exception profile for `ruta`.
///
/// `permitidos` are the resources this application **may** use; the ones not
/// among them are still denied here. That is the point: an exception without
/// denials would give back at once everything the general profile takes away,
/// so allowing the camera would allow the microphone too.
pub fn perfil_para(ruta: &str, permitidos: &[Resource]) -> (r: Result<String, Motivo>)
    ensures
        match r {
            Ok(s) => resultado_de_perfil(ruta@, permitidos@) == Ok::<Seq<char>, Motivo>(s@),
            Err(m) => resultado_de_perfil(ruta@, permitidos@) == Err::<Seq<char>, Motivo>(m),
        },
{
    let c = caracteres(ruta);
    if !(c.len() > 0 && c[0] == '/') {
        return Err(Motivo::NoEsAbsoluta);
    }
    let mut i: usize = 0;
    while i < c.len()
        invariant
            i <= c.len(),
            c@ == ruta@,
            c@.len() > 0 && c@[0] == '/',
            primer_ambiguo_desde(c@, 0) == primer_ambiguo_desde(c@, i as int),
        decreases c.len() - i,
    {
        let x = c[i];
        if x == '*' || x == '?' || x == '[' || x == ']' || x == '{' || x == '}' || x == '"' || x
            == '\\' || x == '\n' || x == '\r' {
            return Err(Motivo::CaracterAmbiguo(x));
        }
        i = i + 1;
    }
    let tabla = negaciones();
    let mut negadas: Vec<char> = Vec::new();
    let mut k: usize = 0;
    while k < tabla.len()
        invariant
            k <= tabla@.len(),
            vista_de_negaciones(tabla@) == tabla_de_negaciones(),
            negadas@ == negaciones_de(tabla_de_negaciones().take(k as int), permitidos@),
        decreases tabla@.len() - k,
    {
        let ghost previas = negadas@;
        let (recurso, reglas) = (tabla[k].0, &tabla[k].1);
        assert(tabla_de_negaciones()[k as int] == (recurso, vista_de_reglas(reglas@)));
        if !contiene_recurso(permitidos, recurso) {
            let mut j: usize = 0;
            while j < reglas.len()
                invariant
                    j <= reglas@.len(),
                    negadas@ == previas + lineas(vista_de_reglas(reglas@).take(j as int)),
                decreases reglas@.len() - j,
            {
                let ghost antes = negadas@;
                anexar(&mut negadas, caracteres("\n  ").as_slice());
                anexar(&mut negadas, caracteres(reglas[j]).as_slice());
                anexar(&mut negadas, caracteres("\n").as_slice());
                assert(vista_de_reglas(reglas@).take(j + 1).drop_last() =~= vista_de_reglas(
                    reglas@,
                ).take(j as int));
                j = j + 1;
            }
            assert(vista_de_reglas(reglas@).take(j as int) =~= vista_de_reglas(reglas@));
        }
        assert(tabla_de_negaciones().take(k + 1).drop_last() =~= tabla_de_negaciones().take(
            k as int,
        ));
        k = k + 1;
    }
    assert(tabla_de_negaciones().take(3) =~= tabla_de_negaciones());
    let nombre = caracteres(nombre_de(ruta).as_str());
    let mut texto = caracteres(CABECERA);
    anexar(&mut texto, nombre.as_slice());
    anexar(&mut texto, caracteres(" \"").as_slice());
    anexar(&mut texto, c.as_slice());
    anexar(&mut texto, caracteres(CUERPO).as_slice());
    anexar(&mut texto, negadas.as_slice());
    anexar(&mut texto, caracteres("\n  include if exists <local/").as_slice());
    anexar(&mut texto, nombre.as_slice());
    anexar(&mut texto, caracteres(">\n}\n").as_slice());
    Ok(cadena(texto.as_slice()))
}

/// Where the exception profiles live: the same directory as the others, and
/// with the `vasak-` prefix, so the system loader, which takes
/// `/etc/apparmor.d/vasak-*`, loads them on every boot. An exception has to
/// survive a restart: it is a decision somebody made, not a session state.
pub const DIRECTORIO: &'static str = "/etc/apparmor.d";

/// The file of the exception profile for the program at `binary_path`.
pub fn archivo_de_excepcion(binary_path: &str) -> (r: String)
    ensures
        r@ == DIRECTORIO@ + "/"@ + nombre_de_perfil(binary_path@),
{
    let mut v = caracteres(DIRECTORIO);
    anexar(&mut v, caracteres("/").as_slice());
    anexar(&mut v, caracteres(nombre_de(binary_path).as_str()).as_slice());
    cadena(v.as_slice())
}

/// What applying a program's allowed resources comes to on disk.
#[derive(Debug, Clone, PartialEq, Eq)]
pub enum Aplicacion {
    /// Nothing is allowed and there is no exception: nothing to do.
    NadaQueHacer,
    /// Nothing is allowed any more: the exception is unloaded and then
    /// deleted, in that order, so the kernel never keeps a profile that no
    /// file backs. The general profile attaches again, which is exactly the
    /// state before any exception was made.
    Retirar,
    /// The exception is written with this text and loaded.
    Escribir(String),
}

/// What applying `permitidos`, the whole list of what the program at
/// `binary_path` is allowed and not a change to it, does, given whether its
/// exception exists. The profile is rewritten whole every time, so the file
/// always reflects the stored decision rather than a chain of changes that
/// may have drifted.
pub fn que_aplicar(binary_path: &str, permitidos: &[Resource], existe: bool) -> (r: Result<
    Aplicacion,
    Motivo,
>)
    ensures
        permitidos@.len() == 0 ==> r == Ok::<Aplicacion, Motivo>(
            if existe {
                Aplicacion::Retirar
            } else {
                Aplicacion::NadaQueHacer
            },
        ),
        permitidos@.len() > 0 ==> match r {
            Ok(Aplicacion::Escribir(s)) => resultado_de_perfil(binary_path@, permitidos@) == Ok::<
                Seq<char>,
                Motivo,
            >(s@),
            Ok(_) => false,
            Err(m) => resultado_de_perfil(binary_path@, permitidos@) == Err::<Seq<char>, Motivo>(m),
        },
{
    if permitidos.len() == 0 {
        return Ok(
            if existe {
                Aplicacion::Retirar
            } else {
                Aplicacion::NadaQueHacer
            },
        );
    }
    match perfil_para(binary_path, permitidos) {
        Ok(s) => Ok(Aplicacion::Escribir(s)),
        Err(m) => Err(m),
    }
}

/// Where applying a program's exception stands on disk and in the kernel.
#[derive(Debug, Clone, Copy, PartialEq, Eq, Structural)]
pub enum Aplicando {
    /// Unloading the exception from the kernel.
    Descargando,
    /// Deleting the exception's file.
    Borrando,
    /// Writing the exception's file.
    Escribiendo,
    /// Loading the written file into the kernel.
    Cargando,
    Terminado,
}

/// What to do next while applying.
#[derive(Debug, Clone, Copy, PartialEq, Eq, Structural)]
pub enum PasoAlDisco {
    /// Ask `apparmor_parser` to remove the profile.
    Descargar,
    /// Delete the file.
    Borrar,
    /// Write the file with the profile's text.
    Escribir,
    /// Ask `apparmor_parser` to load the file.
    Cargar,
    /// It is applied.
    Listo,
    /// Report the error of the step that failed.
    Fallar,
}

/// The first step of applying `a`.
pub open spec fn inicio_de_aplicacion(a: Aplicacion) -> (Aplicando, PasoAlDisco) {
    match a {
        Aplicacion::NadaQueHacer => (Aplicando::Terminado, PasoAlDisco::Listo),
        Aplicacion::Retirar => (Aplicando::Descargando, PasoAlDisco::Descargar),
        Aplicacion::Escribir(_) => (Aplicando::Escribiendo, PasoAlDisco::Escribir),
    }
}

/// The step after the last one went well or not. The profile is unloaded
/// before its file is deleted, and a failed unload leaves the file: the other
/// way round the kernel would keep a profile that no file backs until the next
/// boot, allowing with nothing to show for it. A file is loaded only once it
/// was written.
pub open spec fn paso_de_aplicacion(e: Aplicando, salio_bien: bool) -> (Aplicando, PasoAlDisco) {
    match e {
        Aplicando::Descargando => if salio_bien {
            (Aplicando::Borrando, PasoAlDisco::Borrar)
        } else {
            (Aplicando::Terminado, PasoAlDisco::Fallar)
        },
        Aplicando::Escribiendo => if salio_bien {
            (Aplicando::Cargando, PasoAlDisco::Cargar)
        } else {
            (Aplicando::Terminado, PasoAlDisco::Fallar)
        },
        Aplicando::Borrando | Aplicando::Cargando => if salio_bien {
            (Aplicando::Terminado, PasoAlDisco::Listo)
        } else {
            (Aplicando::Terminado, PasoAlDisco::Fallar)
        },
        Aplicando::Terminado => (Aplicando::Terminado, PasoAlDisco::Fallar),
    }
}

/// Starts applying what [`que_aplicar`] decided.
pub fn empezar_a_aplicar(a: &Aplicacion) -> (r: (Aplicando, PasoAlDisco))
    ensures
        r == inicio_de_aplicacion(*a),
{
    match a {
        Aplicacion::NadaQueHacer => (Aplicando::Terminado, PasoAlDisco::Listo),
        Aplicacion::Retirar => (Aplicando::Descargando, PasoAlDisco::Descargar),
        Aplicacion::Escribir(_) => (Aplicando::Escribiendo, PasoAlDisco::Escribir),
    }
}

/// The next step of applying, given whether the last one went well.
pub fn seguir_aplicando(e: Aplicando, salio_bien: bool) -> (r: (Aplicando, PasoAlDisco))
    ensures
        r == paso_de_aplicacion(e, salio_bien),
{
    match e {
        Aplicando::Descargando => if salio_bien {
            (Aplicando::Borrando, PasoAlDisco::Borrar)
        } else {
            (Aplicando::Terminado, PasoAlDisco::Fallar)
        },
        Aplicando::Escribiendo => if salio_bien {
            (Aplicando::Cargando, PasoAlDisco::Cargar)
        } else {
            (Aplicando::Terminado, PasoAlDisco::Fallar)
        },
        Aplicando::Borrando | Aplicando::Cargando => if salio_bien {
            (Aplicando::Terminado, PasoAlDisco::Listo)
        } else {
            (Aplicando::Terminado, PasoAlDisco::Fallar)
        },
        Aplicando::Terminado => (Aplicando::Terminado, PasoAlDisco::Fallar),
    }
}

/// The kernel never keeps an exception that no file backs, and never loads
/// one that was not written: a file is deleted only right after its profile
/// was unloaded, a profile is loaded only right after its file was written,
/// and unloading is the first thing done when an exception is withdrawn.
pub proof fn se_descarga_antes_de_borrar(a: Aplicacion, e: Aplicando, salio_bien: bool)
    ensures
        paso_de_aplicacion(e, salio_bien).1 == PasoAlDisco::Borrar ==> e == Aplicando::Descargando
            && salio_bien,
        paso_de_aplicacion(e, salio_bien).1 == PasoAlDisco::Cargar ==> e == Aplicando::Escribiendo
            && salio_bien,
        inicio_de_aplicacion(a).1 != PasoAlDisco::Borrar && inicio_de_aplicacion(a).1
            != PasoAlDisco::Cargar,
        a == Aplicacion::Retirar ==> inicio_de_aplicacion(a).1 == PasoAlDisco::Descargar,
{
}

/// The resources the general profile denies, in the order of its table.
pub open spec fn recursos_negables() -> Seq<Resource> {
    seq![Resource::Camera, Resource::Microphone, Resource::Credentials]
}

/// What the policy `p` allows the program at `ruta` among the resources the
/// general profile denies. The others are not written in AppArmor, so putting
/// them in the exception would change nothing.
pub open spec fn permitidos(p: Map<Seq<char>, crate::policy::VistaDeAplicacion>, ruta: Seq<char>) -> Seq<
    Resource,
> {
    recursos_negables().filter(
        |r: Resource| decision_guardada(p, ruta, r.id()) == Decision::Allowed,
    )
}

/// The denied resources the policy allows the program at `binary_path`, read
/// from the whole stored policy and not from what was just touched.
pub fn permitidos_de(policy: &UserPolicy, binary_path: &str) -> (r: Vec<Resource>)
    requires
        policy.bien_formada(),
    ensures
        r@ == permitidos(policy@, binary_path@),
{
    let tabla = negaciones();
    assert(vista_de_negaciones(tabla@).len() == tabla@.len());
    assert(tabla_de_negaciones().len() == 3);
    assert(tabla@.len() == 3);
    assert forall|i: int| 0 <= i < 3 implies #[trigger] tabla_de_negaciones()[i].0
        == recursos_negables()[i] by {
        if i == 0 {
        } else if i == 1 {
        } else {
        }
    }
    let mut r: Vec<Resource> = Vec::new();
    let mut k: usize = 0;
    let ghost pred = |x: Resource| decision_guardada(policy@, binary_path@, x.id()) == Decision::Allowed;
    while k < tabla.len()
        invariant
            k <= tabla@.len(),
            tabla@.len() == 3,
            recursos_negables().len() == 3,
            forall|i: int| 0 <= i < 3 ==> #[trigger] tabla_de_negaciones()[i].0 == recursos_negables()[i],
            policy.bien_formada(),
            vista_de_negaciones(tabla@) == tabla_de_negaciones(),
            pred == (|x: Resource| decision_guardada(policy@, binary_path@, x.id()) == Decision::Allowed),
            r@ == recursos_negables().take(k as int).filter(pred),
        decreases tabla@.len() - k,
    {
        let recurso = tabla[k].0;
        assert(tabla_de_negaciones()[k as int].0 == recurso);
        assert(recursos_negables()[k as int] == recurso);
        let id = recurso.as_id();
        let permitido = policy.decision(binary_path, id.as_str()).is_allowed();
        proof {
            let t = recursos_negables().take(k + 1);
            assert(t.drop_last() =~= recursos_negables().take(k as int));
            assert(t.last() == recurso);
            reveal(Seq::filter);
        }
        if permitido {
            r.push(recurso);
        }
        k = k + 1;
    }
    assert(recursos_negables().take(3) =~= recursos_negables());
    r
}

proof fn lema_todo_permitido(t: Seq<(Resource, Seq<Seq<char>>)>, permitidos: Seq<Resource>)
    requires
        forall|i: int| 0 <= i < t.len() ==> permitidos.contains(#[trigger] t[i].0),
    ensures
        negaciones_de(t, permitidos) == Seq::<char>::empty(),
    decreases t.len(),
{
    if t.len() > 0 {
        let u = t.drop_last();
        assert forall|i: int| 0 <= i < u.len() implies permitidos.contains(#[trigger] u[i].0) by {
            assert(u[i] == t[i]);
        }
        lema_todo_permitido(u, permitidos);
        assert(permitidos.contains(t[t.len() - 1].0));
        assert(negaciones_de(t, permitidos) =~= Seq::<char>::empty());
    }
}

proof fn lema_se_sigue_negando(t: Seq<(Resource, Seq<Seq<char>>)>, permitidos: Seq<Resource>, i: int)
    requires
        0 <= i < t.len(),
        !permitidos.contains(t[i].0),
    ensures
        exists|a: Seq<char>, b: Seq<char>| negaciones_de(t, permitidos) == a + lineas(t[i].1) + b,
    decreases t.len(),
{
    let u = t.drop_last();
    let cola = if permitidos.contains(t.last().0) {
        Seq::<char>::empty()
    } else {
        lineas(t.last().1)
    };
    if i == t.len() - 1 {
        let a = negaciones_de(u, permitidos);
        let b = Seq::<char>::empty();
        assert(negaciones_de(t, permitidos) =~= a + lineas(t[i].1) + b);
    } else {
        assert(u[i] == t[i]);
        lema_se_sigue_negando(u, permitidos, i);
        let (a, b) = choose|a: Seq<char>, b: Seq<char>| negaciones_de(u, permitidos) == a + lineas(u[i].1) + b;
        assert(negaciones_de(t, permitidos) =~= a + lineas(t[i].1) + (b + cola));
    }
}

proof fn lema_solo_cuenta_lo_de_la_tabla(
    t: Seq<(Resource, Seq<Seq<char>>)>,
    p: Seq<Resource>,
    q: Seq<Resource>,
)
    requires
        forall|i: int| 0 <= i < t.len() ==> (p.contains(#[trigger] t[i].0) <==> q.contains(t[i].0)),
    ensures
        negaciones_de(t, p) == negaciones_de(t, q),
    decreases t.len(),
{
    if t.len() > 0 {
        let u = t.drop_last();
        assert forall|i: int| 0 <= i < u.len() implies (p.contains(#[trigger] u[i].0) <==> q.contains(
            u[i].0,
        )) by {
            assert(u[i] == t[i]);
        }
        lema_solo_cuenta_lo_de_la_tabla(u, p, q);
        assert(p.contains(t[t.len() - 1].0) <==> q.contains(t[t.len() - 1].0));
    }
}

/// Allowing one resource never allows another: in the exception profile for
/// any path, the denials of every resource of the general profile that is not
/// among `permitidos` are still written, whole and in one piece.
pub proof fn permitir_uno_no_permite_el_otro(ruta: Seq<char>, permitidos: Seq<Resource>, i: int)
    requires
        0 <= i < tabla_de_negaciones().len(),
        !permitidos.contains(tabla_de_negaciones()[i].0),
    ensures
        exists|a: Seq<char>, b: Seq<char>|
            texto_de_perfil(ruta, permitidos) == a + lineas(tabla_de_negaciones()[i].1) + b,
{
    let t = tabla_de_negaciones();
    lema_se_sigue_negando(t, permitidos, i);
    let (a, b) = choose|a: Seq<char>, b: Seq<char>| negaciones_de(t, permitidos) == a + lineas(t[i].1) + b;
    let nombre = nombre_de_perfil(ruta);
    let antes = CABECERA@ + nombre + " \""@ + ruta + CUERPO@;
    let despues = "\n  include if exists <local/"@ + nombre + ">\n}\n"@;
    assert(texto_de_perfil(ruta, permitidos) =~= (antes + a) + lineas(t[i].1) + (b + despues));
}

/// Allowing everything the general profile denies leaves no denial in the
/// exception.
pub proof fn permitirlo_todo_no_deja_ninguna_negacion(ruta: Seq<char>, permitidos: Seq<Resource>)
    requires
        forall|r: Resource| #[trigger] recursos_negables().contains(r) ==> permitidos.contains(r),
    ensures
        negaciones_de(tabla_de_negaciones(), permitidos) == Seq::<char>::empty(),
{
    let t = tabla_de_negaciones();
    assert forall|i: int| 0 <= i < t.len() implies permitidos.contains(#[trigger] t[i].0) by {
        assert(t[i].0 == recursos_negables()[i]);
        assert(recursos_negables().contains(recursos_negables()[i]));
    }
    lema_todo_permitido(t, permitidos);
}

/// The profile depends on the allowed list only through which of the denied
/// resources it holds: order, repetitions and resources AppArmor does not deny
/// change nothing.
pub proof fn solo_cuenta_lo_que_se_niega(ruta: Seq<char>, p: Seq<Resource>, q: Seq<Resource>)
    requires
        forall|r: Resource| #[trigger] recursos_negables().contains(r) ==> (p.contains(r) <==> q.contains(r)),
    ensures
        texto_de_perfil(ruta, p) == texto_de_perfil(ruta, q),
{
    let t = tabla_de_negaciones();
    assert forall|i: int| 0 <= i < t.len() implies (p.contains(#[trigger] t[i].0) <==> q.contains(
        t[i].0,
    )) by {
        assert(t[i].0 == recursos_negables()[i]);
        assert(recursos_negables().contains(recursos_negables()[i]));
    }
    lema_solo_cuenta_lo_de_la_tabla(t, p, q);
}

proof fn lema_codificar_primero(s: Seq<char>)
    requires
        s.len() > 0,
    ensures
        codificar(s) == codigo(s[0]) + codificar(s.drop_first()),
    decreases s.len(),
{
    if s.len() == 1 {
        assert(s.drop_last() =~= Seq::<char>::empty());
        assert(s.drop_first() =~= Seq::<char>::empty());
        assert(codificar(s) =~= codigo(s[0]) + codificar(s.drop_first()));
    } else {
        let u = s.drop_last();
        lema_codificar_primero(u);
        assert(u.drop_first() =~= s.drop_first().drop_last());
        assert(s.drop_first().last() == s.last());
        assert(u[0] == s[0]);
        assert(codificar(s) =~= codigo(s[0]) + codificar(s.drop_first()));
    }
}

/// Two characters whose writing starts two names the same way are the same
/// character.
proof fn lema_codigo_sin_prefijos(a: char, b: char, x: Seq<char>, y: Seq<char>)
    requires
        codigo(a) + x == codigo(b) + y,
    ensures
        a == b,
        x == y,
{
    let ca = codigo(a);
    let cb = codigo(b);
    let n = codigo(a) + x;
    assert(n == codigo(b) + y);
    assert(n[0] == ca[0] && n[0] == cb[0]);
    let da = decimal((a as u32) as nat);
    let db = decimal((b as u32) as nat);
    lema_decimal_se_relee((a as u32) as nat);
    lema_decimal_se_relee((b as u32) as nat);
    let otro_a = !(a == '/' || a == '_' || a == '-' || es_alfanumerico_ascii(a) || a == '.');
    let otro_b = !(b == '/' || b == '_' || b == '-' || es_alfanumerico_ascii(b) || b == '.');
    if otro_a {
        assert(ca =~= seq!['-'] + da + seq!['-']);
        assert(ca[1] == da[0]);
        assert(es_digito(da[0]));
    }
    if otro_b {
        assert(cb =~= seq!['-'] + db + seq!['-']);
        assert(cb[1] == db[0]);
        assert(es_digito(db[0]));
    }
    if otro_a && otro_b {
        if da.len() < db.len() {
            assert(n[1 + da.len() as int] == ca[1 + da.len() as int]);
            assert(n[1 + da.len() as int] == cb[1 + da.len() as int]);
            assert(cb[1 + da.len() as int] == db[da.len() as int]);
            assert(es_digito(db[da.len() as int]));
        } else if db.len() < da.len() {
            assert(n[1 + db.len() as int] == cb[1 + db.len() as int]);
            assert(n[1 + db.len() as int] == ca[1 + db.len() as int]);
            assert(ca[1 + db.len() as int] == da[db.len() as int]);
            assert(es_digito(da[db.len() as int]));
        } else {
            assert forall|i: int| 0 <= i < da.len() implies da[i] == db[i] by {
                assert(n[1 + i] == ca[1 + i]);
                assert(n[1 + i] == cb[1 + i]);
            }
            assert(da =~= db);
            crate::texto::lema_decimal_inyectivo((a as u32) as nat, (b as u32) as nat);
        }
    } else {
        if ca.len() >= 2 && cb.len() >= 2 {
            assert(n[1] == ca[1] && n[1] == cb[1]);
        }
    }
    assert(a == b);
    assert(ca == cb);
    assert(x =~= n.skip(ca.len() as int));
    assert(y =~= n.skip(cb.len() as int));
}

proof fn lema_codigo_no_vacio(c: char)
    ensures
        codigo(c).len() > 0,
{
}

#[verifier::spinoff_prover]
#[verifier::rlimit(40)]
proof fn lema_codificar_inyectivo(a: Seq<char>, b: Seq<char>)
    requires
        codificar(a) == codificar(b),
    ensures
        a == b,
    decreases a.len(),
{
    if a.len() == 0 {
        if b.len() > 0 {
            lema_codificar_primero(b);
            lema_codigo_no_vacio(b[0]);
        }
        assert(a =~= b);
    } else if b.len() == 0 {
        lema_codificar_primero(a);
        lema_codigo_no_vacio(a[0]);
    } else {
        lema_codificar_primero(a);
        lema_codificar_primero(b);
        lema_codigo_sin_prefijos(a[0], b[0], codificar(a.drop_first()), codificar(b.drop_first()));
        lema_codificar_inyectivo(a.drop_first(), b.drop_first());
        assert(a =~= seq![a[0]] + a.drop_first());
        assert(b =~= seq![b[0]] + b.drop_first());
    }
}

/// Two different paths never share a profile name, so one exception never
/// overwrites another: `/a/b`, `/a_b` and `/a//b` get three names, and so do
/// `/x/App Monitor` and `/x/App-Monitor`.
pub proof fn rutas_distintas_dan_nombres_distintos(a: Seq<char>, b: Seq<char>)
    requires
        nombre_de_perfil(a) == nombre_de_perfil(b),
    ensures
        a == b,
{
    let p = PREFIJO@;
    assert(codificar(a) =~= nombre_de_perfil(a).skip(p.len() as int));
    assert(codificar(b) =~= nombre_de_perfil(b).skip(p.len() as int));
    lema_codificar_inyectivo(a, b);
}

// ── What the rules look like ────────────────────────────────────────────────

/// A character that only the rules put in a profile among the places a
/// path's rules could be found: an AppArmor wildcard or an opening brace.
pub open spec fn marca(c: char) -> bool {
    c == '*' || c == '{'
}

/// The shape every rule of the table has: it begins with `audit deny `, its
/// only spaces are the two there and the one before its permissions at `e`,
/// it ends in its only comma, it holds no line break, and at `k` it holds a
/// wildcard or a `{` right after `@`.
pub open spec fn forma_de_regla(r: Seq<char>, e: int, k: int) -> bool {
    &&& r.len() > 16
    &&& r[0] == 'a' && r[5] == ' ' && r[10] == ' '
    &&& r[r.len() - 1] == ','
    &&& forall|x: int| 0 <= x < r.len() - 1 ==> #[trigger] r[x] != ','
    &&& forall|x: int| 0 <= x < r.len() ==> #[trigger] r[x] != '\n'
    &&& 15 < e < r.len() && r[e] == ' '
    &&& forall|x: int| 0 <= x < r.len() && #[trigger] r[x] == ' ' ==> x == 5 || x == 10 || x == e
    &&& 0 < k < r.len() && marca(r[k]) && (r[k] == '{' ==> r[k - 1] == '@')
}

pub open spec fn regla_bien(r: Seq<char>) -> bool {
    exists|e: int, k: int| forma_de_regla(r, e, k)
}

/// Which entry of the table a rule belongs to, told by two of its
/// characters.
pub open spec fn clase(r: Seq<char>) -> int {
    if r[12] == 'd' && r[16] == 'v' {
        0
    } else if r[12] == 'd' && r[16] == 's' {
        1
    } else {
        2
    }
}

proof fn lema_regla_0()
    ensures
        forma_de_regla("audit deny /dev/video* rwk,"@, 22, 21),
        clase("audit deny /dev/video* rwk,"@) == 0,
{
    reveal_strlit("audit deny /dev/video* rwk,");
}

proof fn lema_regla_1()
    ensures
        forma_de_regla("audit deny /dev/snd/pcmC*D*c rwk,"@, 28, 24),
        clase("audit deny /dev/snd/pcmC*D*c rwk,"@) == 1,
{
    reveal_strlit("audit deny /dev/snd/pcmC*D*c rwk,");
}

proof fn lema_regla_2()
    ensures
        forma_de_regla("audit deny @{HOME}/.ssh/** rwkl,"@, 26, 12),
        clase("audit deny @{HOME}/.ssh/** rwkl,"@) == 2,
{
    reveal_strlit("audit deny @{HOME}/.ssh/** rwkl,");
}

proof fn lema_regla_3()
    ensures
        forma_de_regla("audit deny @{HOME}/.gnupg/** rwkl,"@, 28, 12),
        clase("audit deny @{HOME}/.gnupg/** rwkl,"@) == 2,
{
    reveal_strlit("audit deny @{HOME}/.gnupg/** rwkl,");
}

proof fn lema_regla_4()
    ensures
        forma_de_regla("audit deny @{HOME}/.local/share/vasak-keyring/** rwkl,"@, 48, 12),
        clase("audit deny @{HOME}/.local/share/vasak-keyring/** rwkl,"@) == 2,
{
    reveal_strlit("audit deny @{HOME}/.local/share/vasak-keyring/** rwkl,");
}

proof fn lema_regla_5()
    ensures
        forma_de_regla("audit deny /run/user/*/ssh-agent.socket rw,"@, 39, 21),
        clase("audit deny /run/user/*/ssh-agent.socket rw,"@) == 2,
{
    reveal_strlit("audit deny /run/user/*/ssh-agent.socket rw,");
}

proof fn lema_regla_6()
    ensures
        forma_de_regla("audit deny /run/user/*/gnupg/** rw,"@, 31, 21),
        clase("audit deny /run/user/*/gnupg/** rw,"@) == 2,
{
    reveal_strlit("audit deny /run/user/*/gnupg/** rw,");
}

proof fn lema_regla_7()
    ensures
        forma_de_regla("audit deny @{HOME}/.netrc rwkl,"@, 25, 12),
        clase("audit deny @{HOME}/.netrc rwkl,"@) == 2,
{
    reveal_strlit("audit deny @{HOME}/.netrc rwkl,");
}

proof fn lema_regla_8()
    ensures
        forma_de_regla("audit deny @{HOME}/.git-credentials rwkl,"@, 35, 12),
        clase("audit deny @{HOME}/.git-credentials rwkl,"@) == 2,
{
    reveal_strlit("audit deny @{HOME}/.git-credentials rwkl,");
}

proof fn lema_regla_9()
    ensures
        forma_de_regla("audit deny @{HOME}/.npmrc rwkl,"@, 25, 12),
        clase("audit deny @{HOME}/.npmrc rwkl,"@) == 2,
{
    reveal_strlit("audit deny @{HOME}/.npmrc rwkl,");
}

proof fn lema_regla_10()
    ensures
        forma_de_regla("audit deny @{HOME}/.aws/** rwkl,"@, 26, 12),
        clase("audit deny @{HOME}/.aws/** rwkl,"@) == 2,
{
    reveal_strlit("audit deny @{HOME}/.aws/** rwkl,");
}

proof fn lema_regla_11()
    ensures
        forma_de_regla("audit deny @{HOME}/.kube/** rwkl,"@, 27, 12),
        clase("audit deny @{HOME}/.kube/** rwkl,"@) == 2,
{
    reveal_strlit("audit deny @{HOME}/.kube/** rwkl,");
}

proof fn lema_regla_12()
    ensures
        forma_de_regla("audit deny @{HOME}/.config/gh/** rwkl,"@, 32, 12),
        clase("audit deny @{HOME}/.config/gh/** rwkl,"@) == 2,
{
    reveal_strlit("audit deny @{HOME}/.config/gh/** rwkl,");
}

proof fn lema_regla_13()
    ensures
        forma_de_regla("audit deny @{HOME}/.docker/config.json rwkl,"@, 38, 12),
        clase("audit deny @{HOME}/.docker/config.json rwkl,"@) == 2,
{
    reveal_strlit("audit deny @{HOME}/.docker/config.json rwkl,");
}

proof fn lema_reglas_de_la_tabla()
    ensures
        forall|i: int, j: int|
            0 <= i < tabla_de_negaciones().len() && 0 <= j < tabla_de_negaciones()[i].1.len()
                ==> regla_bien(#[trigger] tabla_de_negaciones()[i].1[j]) && clase(
                tabla_de_negaciones()[i].1[j],
            ) == i,
{
    assert forall|i: int, j: int|
        0 <= i < tabla_de_negaciones().len() && 0 <= j < tabla_de_negaciones()[i].1.len() implies regla_bien(
        #[trigger] tabla_de_negaciones()[i].1[j],
    ) && clase(tabla_de_negaciones()[i].1[j]) == i by {
        if i == 0 {
            if j == 0 {
                lema_regla_0();
            }
        }
        if i == 1 {
            if j == 0 {
                lema_regla_1();
            }
        }
        if i == 2 {
            if j == 0 {
                lema_regla_2();
            }
            if j == 1 {
                lema_regla_3();
            }
            if j == 2 {
                lema_regla_4();
            }
            if j == 3 {
                lema_regla_5();
            }
            if j == 4 {
                lema_regla_6();
            }
            if j == 5 {
                lema_regla_7();
            }
            if j == 6 {
                lema_regla_8();
            }
            if j == 7 {
                lema_regla_9();
            }
            if j == 8 {
                lema_regla_10();
            }
            if j == 9 {
                lema_regla_11();
            }
            if j == 10 {
                lema_regla_12();
            }
            if j == 11 {
                lema_regla_13();
            }
        }
    }
}

// ── Where a rule can be found in a profile ──────────────────────────────────

proof fn lema_partir(a: Seq<char>, b: Seq<char>, r: Seq<char>, i: int)
    requires
        aparece_en(a + b, r, i),
        r.len() > 0,
        forall|x: int| 0 <= x < r.len() ==> #[trigger] r[x] != '\n',
        a.len() == 0 || a[a.len() - 1] == '\n',
    ensures
        aparece_en(a, r, i) || aparece_en(b, r, i - a.len()),
{
    let t = a + b;
    let l = r.len() as int;
    if i + l <= a.len() {
        assert(t.subrange(i, i + l) =~= a.subrange(i, i + l));
    } else if i >= a.len() {
        assert(t.subrange(i, i + l) =~= b.subrange(i - a.len(), i - a.len() + l));
    } else {
        let x = a.len() - 1 - i;
        assert(t.subrange(i, i + l)[x] == t[a.len() - 1]);
        assert(r[x] == '\n');
    }
}

proof fn lema_en_linea(r: Seq<char>, q: Seq<char>, i: int)
    requires
        regla_bien(r),
        regla_bien(q),
        aparece_en("\n  "@ + q + "\n"@, r, i),
    ensures
        r == q,
{
    reveal_strlit("\n  ");
    reveal_strlit("\n");
    let (er, kr) = choose|e: int, k: int| forma_de_regla(r, e, k);
    let (eq, kq) = choose|e: int, k: int| forma_de_regla(q, e, k);
    let w = "\n  "@ + q + "\n"@;
    let l = r.len() as int;
    let n = q.len() as int;
    assert(w.len() == n + 4);
    let sub = w.subrange(i, i + l);
    assert(sub[0] == w[i]);
    assert(w[0] == '\n' && w[1] == ' ' && w[2] == ' ');
    assert(i >= 3);
    if i + l > n + 3 {
        let x = n + 3 - i;
        assert(sub[x] == w[n + 3]);
        assert(w[n + 3] == '\n');
        assert(r[x] == '\n');
    }
    let s = i - 3;
    assert forall|x: int| 0 <= x < l implies r[x] == q[s + x] by {
        assert(sub[x] == w[i + x]);
        assert(w[i + x] == q[s + x]);
    }
    assert(r[l - 1] == ',');
    assert(q[s + l - 1] == ',');
    assert(s + l == n);
    if s > 0 {
        assert(r[5] == ' ' && q[s + 5] == r[5]);
        assert(r[10] == ' ' && q[s + 10] == r[10]);
    }
    assert(s == 0);
    assert(r =~= q);
}

proof fn lema_lineas_acaba(rs: Seq<Seq<char>>)
    ensures
        lineas(rs).len() == 0 || lineas(rs)[lineas(rs).len() - 1] == '\n',
{
    reveal_strlit("\n");
}

proof fn lema_en_lineas(rs: Seq<Seq<char>>, r: Seq<char>, i: int)
    requires
        regla_bien(r),
        forall|j: int| 0 <= j < rs.len() ==> regla_bien(#[trigger] rs[j]),
        aparece_en(lineas(rs), r, i),
    ensures
        rs.contains(r),
    decreases rs.len(),
{
    let (er, kr) = choose|e: int, k: int| forma_de_regla(r, e, k);
    if rs.len() > 0 {
        let u = rs.drop_last();
        let a = lineas(u);
        let w = "\n  "@ + rs.last() + "\n"@;
        assert(lineas(rs) == a + w);
        lema_lineas_acaba(u);
        lema_partir(a, w, r, i);
        if aparece_en(a, r, i) {
            assert forall|j: int| 0 <= j < u.len() implies regla_bien(#[trigger] u[j]) by {
                assert(u[j] == rs[j]);
            }
            lema_en_lineas(u, r, i);
            let j = choose|j: int| 0 <= j < u.len() && u[j] == r;
            assert(rs[j] == r);
        } else {
            assert(regla_bien(rs[rs.len() - 1]));
            lema_en_linea(r, rs.last(), i - a.len());
            assert(rs[rs.len() - 1] == r);
        }
    }
}

proof fn lema_negaciones_acaba(t: Seq<(Resource, Seq<Seq<char>>)>, p: Seq<Resource>)
    ensures
        negaciones_de(t, p).len() == 0 || negaciones_de(t, p)[negaciones_de(t, p).len() - 1] == '\n',
    decreases t.len(),
{
    if t.len() > 0 {
        lema_negaciones_acaba(t.drop_last(), p);
        lema_lineas_acaba(t.last().1);
    }
}

proof fn lema_en_negaciones(t: Seq<(Resource, Seq<Seq<char>>)>, p: Seq<Resource>, r: Seq<char>, i: int)
    requires
        regla_bien(r),
        forall|j: int, m: int|
            0 <= j < t.len() && 0 <= m < t[j].1.len() ==> regla_bien(#[trigger] t[j].1[m]),
        aparece_en(negaciones_de(t, p), r, i),
    ensures
        exists|j: int| 0 <= j < t.len() && !p.contains(t[j].0) && #[trigger] t[j].1.contains(r),
    decreases t.len(),
{
    let (er, kr) = choose|e: int, k: int| forma_de_regla(r, e, k);
    if t.len() > 0 {
        let u = t.drop_last();
        let a = negaciones_de(u, p);
        let c = if p.contains(t.last().0) {
            Seq::<char>::empty()
        } else {
            lineas(t.last().1)
        };
        assert(negaciones_de(t, p) == a + c);
        lema_negaciones_acaba(u, p);
        lema_partir(a, c, r, i);
        if aparece_en(a, r, i) {
            assert forall|j: int, m: int| 0 <= j < u.len() && 0 <= m < u[j].1.len() implies regla_bien(
                #[trigger] u[j].1[m],
            ) by {
                assert(u[j] == t[j]);
            }
            lema_en_negaciones(u, p, r, i);
            let j = choose|j: int| 0 <= j < u.len() && !p.contains(u[j].0) && #[trigger] u[j].1.contains(r);
            assert(u[j] == t[j]);
        } else {
            let z = t.len() - 1;
            assert(t[z] == t.last());
            assert forall|m: int| 0 <= m < t.last().1.len() implies regla_bien(#[trigger] t.last().1[m]) by {
                assert(t[z].1[m] == t.last().1[m]);
            }
            lema_en_lineas(t.last().1, r, i - a.len());
            assert(t[z].1.contains(r));
        }
    }
}

proof fn lema_sin_ambiguos(s: Seq<char>, i: int)
    requires
        0 <= i,
        primer_ambiguo_desde(s, i) is None,
    ensures
        forall|x: int| i <= x < s.len() ==> !es_ambiguo(#[trigger] s[x]),
    decreases s.len() - i,
{
    if i < s.len() {
        lema_sin_ambiguos(s, i + 1);
    }
}

proof fn lema_cabecera_sin_marcas()
    ensures
        forall|x: int| 0 <= x < CABECERA@.len() ==> !marca(#[trigger] CABECERA@[x]),
{
    reveal_strlit("# ARCHIVO GENERADO — no editar a mano.\n#\n# Excepción para una aplicación: le devuelve el acceso que el perfil general\n# /etc/apparmor.d/vasak-appimage le niega a todas.\n#\n# Existe porque ese perfil se engancha a todos los AppImage a la vez y no se\n# puede exceptuar uno desde ahí. AppArmor elige la coincidencia más específica,\n# así que este perfil —enganchado a una ruta exacta— le gana al general.\n#\n# Se borra para volver a bloquear la aplicación.\n\nabi <abi/4.0>,\n\ninclude <tunables/global>\n\nprofile ");
}

proof fn lema_cuerpo()
    ensures
        CUERPO@.len() > 3,
        CUERPO@[1] == ' ',
        CUERPO@[2] == '{',
        CUERPO@[CUERPO@.len() - 1] == '\n',
        forall|x: int| 0 <= x < CUERPO@.len() && x != 2 ==> !marca(#[trigger] CUERPO@[x]),
{
    reveal_strlit("\" {\n  # Todo permitido, y después se vuelve a negar lo que esta aplicación no tiene\n  # concedido. Sin las negaciones de abajo, la excepción devolvería de una vez\n  # todo lo que el perfil general quita.\n  file,\n  network,\n  unix,\n  signal,\n  ptrace,\n  dbus,\n  capability,\n  mount,\n  umount,\n  pivot_root,\n  change_profile,\n  io_uring,\n  mqueue,\n  userns,\n");
}

proof fn lema_pie_sin_marcas()
    ensures
        forall|x: int| 0 <= x < "\n  include if exists <local/"@.len() ==> !marca(
            #[trigger] "\n  include if exists <local/"@[x],
        ),
        forall|x: int| 0 <= x < ">\n}\n"@.len() ==> !marca(#[trigger] ">\n}\n"@[x]),
        forall|x: int| 0 <= x < " \""@.len() ==> !marca(#[trigger] " \""@[x]),
{
    reveal_strlit("\n  include if exists <local/");
    reveal_strlit(">\n}\n");
    reveal_strlit(" \"");
}

/// The rules the profile writes for the resources that are allowed appear
/// nowhere in it, and those of the ones that are not allowed do: a rule of the
/// general profile occurs in the exception for an accepted path exactly when
/// its resource is not among `permitidos`. Allowing the camera keeps the
/// microphone and the credentials denied, and leaves no trace of a camera
/// denial anywhere in the text.
pub proof fn una_regla_figura_si_y_solo_si_se_niega(
    ruta: Seq<char>,
    permitidos: Seq<Resource>,
    i: int,
    regla: Seq<char>,
)
    requires
        resultado_de_perfil(ruta, permitidos) is Ok,
        0 <= i < tabla_de_negaciones().len(),
        tabla_de_negaciones()[i].1.contains(regla),
    ensures
        (exists|pos: int| aparece_en(texto_de_perfil(ruta, permitidos), regla, pos))
            <==> !permitidos.contains(tabla_de_negaciones()[i].0),
{
    let t = tabla_de_negaciones();
    let texto = texto_de_perfil(ruta, permitidos);
    lema_reglas_de_la_tabla();
    let m = choose|m: int| 0 <= m < t[i].1.len() && t[i].1[m] == regla;
    assert(regla_bien(t[i].1[m]));
    if !permitidos.contains(t[i].0) {
        permitir_uno_no_permite_el_otro(ruta, permitidos, i);
        let (a, b) = choose|a: Seq<char>, b: Seq<char>| texto == a + lineas(t[i].1) + b;
        let p = lema_posicion_en_lineas(t[i].1, m);
        let pos = a.len() + p;
        let l = regla.len() as int;
        assert(texto.subrange(pos, pos + l) =~= lineas(t[i].1).subrange(p, p + l));
        assert(aparece_en(texto, regla, pos));
    } else {
        if exists|pos: int| aparece_en(texto, regla, pos) {
            let pos = choose|pos: int| aparece_en(texto, regla, pos);
            lema_nunca_si_se_permite(ruta, permitidos, i, m, pos);
            assert(false);
        }
    }
}

proof fn lema_posicion_en_lineas(rs: Seq<Seq<char>>, m: int) -> (p: int)
    requires
        0 <= m < rs.len(),
    ensures
        aparece_en(lineas(rs), rs[m], p),
    decreases rs.len(),
{
    reveal_strlit("\n  ");
    let u = rs.drop_last();
    let a = lineas(u);
    let w = "\n  "@ + rs.last() + "\n"@;
    assert(lineas(rs) == a + w);
    let l = rs[m].len() as int;
    if m == rs.len() - 1 {
        let p: int = a.len() as int + 3;
        assert(lineas(rs).subrange(p, p + l) =~= rs[m]);
        p
    } else {
        let p = lema_posicion_en_lineas(u, m);
        assert(u[m] == rs[m]);
        assert(lineas(rs).subrange(p, p + l) =~= a.subrange(p, p + l));
        p
    }
}

proof fn lema_nunca_si_se_permite(ruta: Seq<char>, permitidos: Seq<Resource>, i: int, m: int, pos: int)
    requires
        resultado_de_perfil(ruta, permitidos) is Ok,
        0 <= i < tabla_de_negaciones().len(),
        0 <= m < tabla_de_negaciones()[i].1.len(),
        permitidos.contains(tabla_de_negaciones()[i].0),
    ensures
        !aparece_en(texto_de_perfil(ruta, permitidos), tabla_de_negaciones()[i].1[m], pos),
{
    if aparece_en(texto_de_perfil(ruta, permitidos), tabla_de_negaciones()[i].1[m], pos) {
        let t = tabla_de_negaciones();
        let r = t[i].1[m];
        lema_reglas_de_la_tabla();
        let (er, k) = choose|e: int, k: int| forma_de_regla(r, e, k);
        let l = r.len() as int;
        let nombre = nombre_de_perfil(ruta);
        let n = negaciones_de(t, permitidos);
        let x = CABECERA@ + nombre + " \""@ + ruta + CUERPO@;
        let y = x + n;
        let z = "\n  include if exists <local/"@ + nombre + ">\n}\n"@;
        let texto = texto_de_perfil(ruta, permitidos);
        assert(texto =~= y + z);
        lema_cuerpo();
        lema_cabecera_sin_marcas();
        lema_pie_sin_marcas();
        el_nombre_no_lleva_caracteres_raros(ruta);
        lema_sin_ambiguos(ruta, 0);
        lema_negaciones_acaba(t, permitidos);
        assert(x[x.len() - 1] == CUERPO@[CUERPO@.len() - 1]);
        assert(y.len() == 0 || y[y.len() - 1] == '\n') by {
            if n.len() > 0 {
                assert(y[y.len() - 1] == n[n.len() - 1]);
            }
        }
        lema_partir(y, z, r, pos);
        if aparece_en(z, r, pos - y.len()) {
            let q = pos - y.len() + k;
            assert(z.subrange(pos - y.len(), pos - y.len() + l)[k] == z[q]);
            assert(marca(z[q]));
            let z1 = "\n  include if exists <local/"@;
            if q < z1.len() {
                assert(z[q] == z1[q]);
            } else if q < z1.len() + nombre.len() {
                assert(z[q] == nombre[q - z1.len()]);
            } else {
                assert(z[q] == ">\n}\n"@[q - z1.len() - nombre.len()]);
            }
            assert(false);
        }
        assert(aparece_en(y, r, pos));
        lema_partir(x, n, r, pos);
        if aparece_en(n, r, pos - x.len()) {
            lema_en_negaciones(t, permitidos, r, pos - x.len());
            let j = choose|j: int| 0 <= j < t.len() && !permitidos.contains(t[j].0) && #[trigger] t[j].1.contains(r);
            let mj = choose|mj: int| 0 <= mj < t[j].1.len() && t[j].1[mj] == r;
            assert(clase(t[j].1[mj]) == j);
            assert(clase(t[i].1[m]) == i);
            assert(false);
        }
        assert(aparece_en(x, r, pos));
        let q = pos + k;
        assert(x.subrange(pos, pos + l)[k] == x[q]);
        assert(marca(x[q]));
        let c = CABECERA@;
        let u = CUERPO@;
        let c1 = c.len();
        let c2 = c1 + nombre.len();
        let c3 = c2 + 2;
        let c4 = c3 + ruta.len();
        assert(x.len() == c4 + u.len());
        if q < c1 {
            assert(x[q] == c[q]);
        } else if q < c2 {
            assert(x[q] == nombre[q - c1]);
        } else if q < c3 {
            assert(x[q] == " \""@[q - c2]);
        } else if q < c4 {
            assert(x[q] == ruta[q - c3]);
            assert(!es_ambiguo(ruta[q - c3]));
        } else {
            assert(x[q] == u[q - c4]);
            assert(q - c4 == 2);
            assert(r[k] == '{');
            assert(r[k - 1] == '@');
            assert(x.subrange(pos, pos + l)[k - 1] == x[q - 1]);
            assert(x[q - 1] == u[1]);
            assert(false);
        }
        assert(false);
    }
}

/// Every resource the general profile denies is one whose decision has an
/// effect when stored against a program's path: the exception profile lifts or
/// keeps its denials, so the service asks about it and stores the answer. So
/// do the online accounts and their store, which a service hands out only
/// after asking; nothing else does, since nothing else consults a decision
/// stored against a path.
pub proof fn lo_que_el_perfil_niega_se_decide(r: Resource, key: Seq<char>)
    requires
        !crate::protocol::es_clave_del_portal(key),
    ensures
        r.tiene_efecto_para(key) <==> (recursos_negables().contains(r) || r is Account
            || r is Store),
{
    assert(recursos_negables()[0] == Resource::Camera);
    assert(recursos_negables()[1] == Resource::Microphone);
    assert(recursos_negables()[2] == Resource::Credentials);
    if recursos_negables().contains(r) {
        let i = choose|i: int| 0 <= i < recursos_negables().len() && recursos_negables()[i] == r;
    }
}

} // verus!
