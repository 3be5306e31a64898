//! Where the dialog agent's language catalogues are, and which language to
//! use.
//!
//! It breaks silently: if the path does not resolve, the application opens
//! anyway and shows the raw keys instead of the texts.
use vstd::prelude::*;
use crate::texto::{anexar, cadena, caracteres, empieza, empieza_con, iguales, recortar};

verus! {

broadcast use vstd::string::group_string_axioms;

/// The package's name, which is also its directory under `/usr/share`.
pub const NOMBRE: &'static str = "vasak-permissions";

/// The fallback language: Spanish, the system's default.
pub const RESERVA: &'static str = "es";

/// The languages the application carries translations for. Any other falls
/// back: everything in one language is better than a mix with raw keys.
pub open spec fn idiomas_soportados() -> Seq<Seq<char>> {
    seq!["es"@, "en"@]
}

pub fn soportados() -> (v: Vec<&'static str>)
    ensures
        v@.map_values(|s: &'static str| s@) == idiomas_soportados(),
{
    let mut v: Vec<&'static str> = Vec::new();
    v.push("es");
    v.push("en");
    assert(v@.map_values(|s: &'static str| s@) =~= idiomas_soportados());
    v
}

/// Where an installed application lives, as opposed to one just built.
pub open spec fn prefijos_instalados() -> Seq<Seq<char>> {
    seq!["/usr/"@, "/opt/"@, "/snap/"@]
}

/// Whether this executable is the one a package installed.
pub open spec fn instalado(exe: Seq<char>) -> bool {
    exists|i: int| 0 <= i < prefijos_instalados().len() && empieza_con(exe, #[trigger] prefijos_instalados()[i])
}

pub fn esta_instalado(exe: &str) -> (r: bool)
    ensures
        r == instalado(exe@),
{
    let e = caracteres(exe);
    let r = empieza(e.as_slice(), caracteres("/usr/").as_slice()) || empieza(
        e.as_slice(),
        caracteres("/opt/").as_slice(),
    ) || empieza(e.as_slice(), caracteres("/snap/").as_slice());
    proof {
        if r {
            if empieza_con(exe@, "/usr/"@) {
                assert(empieza_con(exe@, prefijos_instalados()[0]));
            } else if empieza_con(exe@, "/opt/"@) {
                assert(empieza_con(exe@, prefijos_instalados()[1]));
            } else {
                assert(empieza_con(exe@, prefijos_instalados()[2]));
            }
        } else {
            assert forall|i: int| 0 <= i < prefijos_instalados().len() implies !empieza_con(
                exe@,
                #[trigger] prefijos_instalados()[i],
            ) by {
                if i == 0 {
                } else if i == 1 {
                } else {
                }
            }
        }
    }
    r
}

/// `nombre` inside the directory `dir`, as `Path::join` puts it.
pub open spec fn dentro_de(dir: Seq<char>, nombre: Seq<char>) -> Seq<char> {
    if dir.len() == 0 {
        nombre
    } else if dir.last() == '/' {
        dir + nombre
    } else {
        dir + seq!['/'] + nombre
    }
}

fn unir(dir: &str, nombre: &str) -> (r: String)
    ensures
        r@ == dentro_de(dir@, nombre@),
{
    let mut v = caracteres(dir);
    if v.len() > 0 && v[v.len() - 1] != '/' {
        v.push('/');
    }
    anexar(&mut v, caracteres(nombre).as_slice());
    cadena(v.as_slice())
}

/// The installed catalogue directory, which is absolute, so it does not
/// depend on where the process was started from.
pub open spec fn catalogo_instalado() -> Seq<char> {
    "/usr/share/"@ + NOMBRE@ + "/locales"@
}

/// Where to look for the catalogues, in order: first the working copy's, so
/// a translation being changed is seen, but **only** when the binary is not
/// installed. A process inherits the working directory of whoever launched
/// it, and an installed application must never load another project's
/// catalogues from there.
pub open spec fn rutas_candidatas(exe: Option<Seq<char>>, cwd: Option<Seq<char>>) -> Seq<Seq<char>> {
    let instalado_ = match exe {
        Some(e) => instalado(e),
        None => false,
    };
    let del_proyecto = match cwd {
        Some(c) => if !instalado_ {
            seq![dentro_de(c, "locales"@), dentro_de(c, "src-tauri/locales"@)]
        } else {
            Seq::empty()
        },
        None => Seq::empty(),
    };
    del_proyecto.push(catalogo_instalado())
}

pub open spec fn vista_de_opcion(o: Option<&str>) -> Option<Seq<char>> {
    match o {
        Some(s) => Some(s@),
        None => None,
    }
}

pub fn candidatas(exe: Option<&str>, cwd: Option<&str>) -> (r: Vec<String>)
    ensures
        r@.map_values(|s: String| s@) == rutas_candidatas(vista_de_opcion(exe), vista_de_opcion(cwd)),
{
    let mut rutas: Vec<String> = Vec::new();
    let instalado_ = match exe {
        Some(e) => esta_instalado(e),
        None => false,
    };
    if let Some(c) = cwd {
        if !instalado_ {
            rutas.push(unir(c, "locales"));
            rutas.push(unir(c, "src-tauri/locales"));
        }
    }
    let mut fija = caracteres("/usr/share/");
    anexar(&mut fija, caracteres(NOMBRE).as_slice());
    anexar(&mut fija, caracteres("/locales").as_slice());
    rutas.push(cadena(fija.as_slice()));
    assert(rutas@.map_values(|s: String| s@) =~= rutas_candidatas(
        vista_de_opcion(exe),
        vista_de_opcion(cwd),
    ));
    rutas
}

/// Where the language code of a locale ends: at the first `_`, `.` or `@`.
pub open spec fn fin_del_codigo(l: Seq<char>, i: int) -> int
    decreases l.len() - i,
{
    if i < 0 || i >= l.len() {
        l.len() as int
    } else if l[i] == '_' || l[i] == '.' || l[i] == '@' {
        i
    } else {
        fin_del_codigo(l, i + 1)
    }
}

/// The language code of a locale value, `es_AR.UTF-8@euro` giving `es`, when
/// it is one of the languages there are translations for.
pub open spec fn codigo(l: Seq<char>) -> Option<Seq<char>> {
    let c = l.take(fin_del_codigo(l, 0));
    if c.len() == 0 || !idiomas_soportados().contains(c) {
        None
    } else {
        Some(c)
    }
}

proof fn lema_fin_del_codigo(l: Seq<char>, i: int)
    requires
        0 <= i <= l.len(),
    ensures
        i <= fin_del_codigo(l, i) <= l.len(),
    decreases l.len() - i,
{
    if i < l.len() && !(l[i] == '_' || l[i] == '.' || l[i] == '@') {
        lema_fin_del_codigo(l, i + 1);
    }
}

pub fn codigo_de_idioma(locale: &str) -> (r: Option<String>)
    ensures
        match r {
            Some(c) => codigo(locale@) == Some(c@),
            None => codigo(locale@) is None,
        },
{
    let l = caracteres(locale);
    let mut i: usize = 0;
    while i < l.len() && !(l[i] == '_' || l[i] == '.' || l[i] == '@')
        invariant
            i <= l.len(),
            l@ == locale@,
            fin_del_codigo(l@, 0) == fin_del_codigo(l@, i as int),
        decreases l.len() - i,
    {
        i = i + 1;
    }
    let c = crate::texto::tramo(l.as_slice(), 0, i);
    assert(c@ =~= locale@.take(fin_del_codigo(locale@, 0)));
    if c.len() == 0 {
        return None;
    }
    let lista = soportados();
    let mut k: usize = 0;
    while k < lista.len()
        invariant
            k <= lista@.len(),
            lista@.map_values(|s: &'static str| s@) == idiomas_soportados(),
            c@ == locale@.take(fin_del_codigo(locale@, 0)),
            c@.len() > 0,
            forall|j: int| 0 <= j < k ==> idiomas_soportados()[j] != c@,
        decreases lista@.len() - k,
    {
        assert(idiomas_soportados()[k as int] == lista@[k as int]@);
        if iguales(caracteres(lista[k]).as_slice(), c.as_slice()) {
            assert(idiomas_soportados().contains(c@));
            return Some(cadena(c.as_slice()));
        }
        k = k + 1;
    }
    proof {
        if idiomas_soportados().contains(c@) {
            let j = choose|j: int| 0 <= j < idiomas_soportados().len() && idiomas_soportados()[j] == c@;
        }
    }
    None
}

/// The first of `vs` that is set and not blank.
pub open spec fn primer_valor(vs: Seq<Option<String>>) -> Option<Seq<char>>
    decreases vs.len(),
{
    if vs.len() == 0 {
        None
    } else if vs[0] is Some && recortar(vs[0]->0@).len() > 0 {
        Some(vs[0]->0@)
    } else {
        primer_valor(vs.subrange(1, vs.len() as int))
    }
}

/// The language that values of the locale variables, most specific first,
/// give: the code of the first one that is set and not blank when it has
/// translations, and the fallback otherwise.
pub open spec fn idioma(vs: Seq<Option<String>>) -> Seq<char> {
    match primer_valor(vs) {
        Some(v) => match codigo(v) {
            Some(c) => c,
            None => RESERVA@,
        },
        None => RESERVA@,
    }
}

/// The language of the session, from the values of `LC_ALL`, `LC_MESSAGES`
/// and `LANG` in that order: the first one that is not blank decides, and a
/// language without translations, or none at all, gives the fallback. An
/// empty `LC_ALL` next to `LANG=en_US.UTF-8` is an English machine.
pub fn idioma_de(valores: &[Option<String>]) -> (r: String)
    ensures
        r@ == idioma(valores@),
{
    let mut i: usize = 0;
    assert(valores@.subrange(0, valores@.len() as int) =~= valores@);
    while i < valores.len()
        invariant
            i <= valores.len(),
            primer_valor(valores@) == primer_valor(valores@.subrange(i as int, valores@.len() as int)),
        decreases valores.len() - i,
    {
        let ghost resto = valores@.subrange(i as int, valores@.len() as int);
        assert(resto.subrange(1, resto.len() as int) =~= valores@.subrange(
            i + 1,
            valores@.len() as int,
        ));
        if let Some(v) = &valores[i] {
            let recortado = crate::texto::recortado(caracteres(v.as_str()).as_slice());
            if recortado.len() > 0 {
                return match codigo_de_idioma(v.as_str()) {
                    Some(c) => c,
                    None => RESERVA.to_owned(),
                };
            }
        }
        i = i + 1;
    }
    RESERVA.to_owned()
}

/// The fallback language is one of those with translations, so falling back
/// never lands on a catalogue that does not exist.
pub proof fn la_reserva_esta_entre_los_soportados()
    ensures
        idiomas_soportados().contains(RESERVA@),
        forall|i: int| 0 <= i < idiomas_soportados().len() ==> #[trigger] idiomas_soportados()[i].len() == 2,
{
    reveal_strlit("es");
    reveal_strlit("en");
    assert(idiomas_soportados()[0] == RESERVA@);
}

} // verus!
