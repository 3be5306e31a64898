//! Exceptions for any AppArmor profile, not only the service's own.
//!
//! Every profile the system ships ends with `include if exists <local/<name>>`,
//! so writing that file is enough to allow one more thing, and it survives the
//! profile package being updated.
//!
//! This writes policy rules **as root**, from paths the blocked program chose:
//! it only has to try to open a file with the name it wants for that name to
//! arrive here through the kernel log. An unchecked path could close the rule
//! and open another one, `x, /etc/shadow r, #`, and grant itself anything while
//! the person believes they allowed a file of theirs. Quoting alone is not
//! enough either: `"/home/**" rw,` is accepted by AppArmor, wildcards and all.
//! So the path is quoted **and** everything AppArmor would not read as literal
//! text is refused. Reading and writing the files, and reloading the profile,
//! is left to the program around this library.
use vstd::prelude::*;
use crate::texto::{
    anexar, cadena, caracteres, es_alfanumerico_ascii, es_espacio, iguales, lineas, lineas_con,
    lineas_de, recortado, recortar, sin_espacios_al_final, sin_espacios_al_principio, sin_retorno,
};

verus! {

broadcast use vstd::string::group_string_axioms;

/// Where the exception files live: what each profile's
/// `include if exists <local/…>` resolves to.
pub const LOCAL: &'static str = "/etc/apparmor.d/local";

/// Why a rule cannot be written.
#[derive(Debug, Clone, Copy, PartialEq, Eq, Structural)]
pub enum Motivo {
    NoEsAbsoluta,
    /// A character AppArmor would read as a wildcard, or that would break the
    /// file.
    CaracterAmbiguo(char),
    /// The profile's name is no use as a file name.
    PerfilInvalido,
    /// Permissions that are not a known set.
    MascaraInvalida,
}

impl Motivo {
    /// The reason in words.
    pub fn describir(&self) -> (r: String)
        ensures
            r@ == match *self {
                Motivo::NoEsAbsoluta => "la ruta no es absoluta"@,
                Motivo::CaracterAmbiguo(c) => "la ruta lleva «"@ + seq![c]
                    + "», que AppArmor no leería como texto"@,
                Motivo::PerfilInvalido => "el nombre del perfil no es utilizable"@,
                Motivo::MascaraInvalida => "los permisos no son un conjunto conocido"@,
            },
    {
        match self {
            Motivo::NoEsAbsoluta => "la ruta no es absoluta".to_owned(),
            Motivo::CaracterAmbiguo(c) => {
                let mut v = caracteres("la ruta lleva «");
                v.push(*c);
                anexar(&mut v, caracteres("», que AppArmor no leería como texto").as_slice());
                cadena(v.as_slice())
            },
            Motivo::PerfilInvalido => "el nombre del perfil no es utilizable".to_owned(),
            Motivo::MascaraInvalida => "los permisos no son un conjunto conocido".to_owned(),
        }
    }
}

/// What cannot appear in a path written into a rule: AppArmor's wildcards,
/// what breaks the quoted string, what cuts the line, and what separates or
/// ends a rule. None of them is in the real name of a file anybody wants to
/// allow, so refusing is better than escaping.
pub const AMBIGUOS: [char; 13] = ['*', '?', '[', ']', '{', '}', '"', '\\', '\n', '\r', ',', '#', '\0'];

pub open spec fn es_ambiguo(c: char) -> bool {
    c == '*' || c == '?' || c == '[' || c == ']' || c == '{' || c == '}' || c == '"' || c == '\\'
        || c == '\n' || c == '\r' || c == ',' || c == '#' || c == '\0'
}

/// The permissions AppArmor understands for a file. `x` is left out on
/// purpose: granting execution also needs saying under which profile the new
/// program runs, and a one-click "allow" cannot decide that.
pub const PERMISOS: [char; 6] = ['r', 'w', 'a', 'l', 'k', 'm'];

pub open spec fn es_permiso(c: char) -> bool {
    c == 'r' || c == 'w' || c == 'a' || c == 'l' || c == 'k' || c == 'm'
}

/// The permissions in the order a normalised mask lists them.
pub open spec fn orden_de_permisos() -> Seq<char> {
    seq!['a', 'k', 'l', 'm', 'r', 'w']
}

/// Whether a profile's name can be a file name inside `local/`. The name comes
/// from the kernel log, so it is checked rather than trusted: `../../etc/passwd`
/// would write outside the directory.
pub open spec fn perfil_utilizable(p: Seq<char>) -> bool {
    &&& p.len() > 0
    &&& p.len() <= 200
    &&& p != seq!['.']
    &&& p != seq!['.', '.']
    &&& forall|i: int|
        0 <= i < p.len() ==> es_alfanumerico_ascii(#[trigger] p[i]) || p[i] == '_' || p[i] == '-'
            || p[i] == '.'
}

pub fn perfil_valido(perfil: &str) -> (r: bool)
    ensures
        r == perfil_utilizable(perfil@),
{
    let p = caracteres(perfil);
    if p.len() == 0 || p.len() > 200 {
        return false;
    }
    let punto = vec!['.'];
    let dos_puntos = vec!['.', '.'];
    assert(punto@ =~= seq!['.']);
    assert(dos_puntos@ =~= seq!['.', '.']);
    if iguales(p.as_slice(), punto.as_slice()) || iguales(p.as_slice(), dos_puntos.as_slice()) {
        return false;
    }
    let mut i: usize = 0;
    while i < p.len()
        invariant
            i <= p.len(),
            p@ == perfil@,
            forall|j: int|
                0 <= j < i ==> es_alfanumerico_ascii(#[trigger] p@[j]) || p@[j] == '_' || p@[j]
                    == '-' || p@[j] == '.',
        decreases p.len() - i,
    {
        let c = p[i];
        if !(('0' <= c && c <= '9') || ('a' <= c && c <= 'z') || ('A' <= c && c <= 'Z') || c == '_'
            || c == '-' || c == '.') {
            return false;
        }
        i = i + 1;
    }
    true
}

/// The permissions of a mask, normalised: each one once, in a fixed order.
/// Empty, longer than the set of permissions, or with anything that is not a
/// permission, it is refused.
pub open spec fn mascara_normalizada(m: Seq<char>) -> Result<Seq<char>, Motivo> {
    if m.len() == 0 || m.len() > 6 || exists|i: int| 0 <= i < m.len() && !es_permiso(#[trigger] m[i]) {
        Err(Motivo::MascaraInvalida)
    } else {
        Ok(orden_de_permisos().filter(|c: char| m.contains(c)))
    }
}

/// The permissions, normalised and sorted, or an error.
pub fn mascara_valida(mascara: &str) -> (r: Result<String, Motivo>)
    ensures
        match r {
            Ok(s) => mascara_normalizada(mascara@) == Ok::<Seq<char>, Motivo>(s@),
            Err(e) => mascara_normalizada(mascara@) == Err::<Seq<char>, Motivo>(e),
        },
{
    let m = caracteres(mascara);
    if m.len() == 0 || m.len() > 6 {
        return Err(Motivo::MascaraInvalida);
    }
    let mut i: usize = 0;
    while i < m.len()
        invariant
            i <= m.len(),
            m@ == mascara@,
            0 < m@.len() <= 6,
            forall|j: int| 0 <= j < i ==> es_permiso(#[trigger] m@[j]),
        decreases m.len() - i,
    {
        let c = m[i];
        if !(c == 'r' || c == 'w' || c == 'a' || c == 'l' || c == 'k' || c == 'm') {
            assert(!es_permiso(m@[i as int]));
            return Err(Motivo::MascaraInvalida);
        }
        i = i + 1;
    }
    let orden: [char; 6] = ['a', 'k', 'l', 'm', 'r', 'w'];
    assert(orden@ =~= orden_de_permisos());
    let ghost pred = |c: char| mascara@.contains(c);
    let mut r: Vec<char> = Vec::new();
    let mut k: usize = 0;
    while k < 6
        invariant
            k <= 6,
            m@ == mascara@,
            orden@ == orden_de_permisos(),
            pred == (|c: char| mascara@.contains(c)),
            r@ == orden_de_permisos().take(k as int).filter(pred),
        decreases 6 - k,
    {
        let c = orden[k];
        let mut esta = false;
        let mut j: usize = 0;
        while j < m.len()
            invariant
                j <= m.len(),
                m@ == mascara@,
                esta == exists|x: int| 0 <= x < j && m@[x] == c,
            decreases m.len() - j,
        {
            if m[j] == c {
                esta = true;
            }
            j = j + 1;
        }
        proof {
            let t = orden_de_permisos().take(k + 1);
            assert(t.drop_last() =~= orden_de_permisos().take(k as int));
            assert(t.last() == c);
            reveal(Seq::filter);
            if esta {
                let x = choose|x: int| 0 <= x < j && m@[x] == c;
                assert(mascara@.contains(c));
            }
        }
        if esta {
            r.push(c);
        }
        k = k + 1;
    }
    assert(orden_de_permisos().take(6) =~= orden_de_permisos());
    Ok(cadena(r.as_slice()))
}

/// The first character of `s` at or after `i` that cannot go in a rule.
pub open spec fn primer_ambiguo_desde(s: Seq<char>, i: int) -> Option<char>
    decreases s.len() - i,
{
    if i < 0 || i >= s.len() {
        None
    } else if es_ambiguo(s[i]) {
        Some(s[i])
    } else {
        primer_ambiguo_desde(s, i + 1)
    }
}

/// The rule that allows `ruta` with `mascara`: the path between quotes, since
/// file names carry spaces, then the normalised permissions and a comma.
pub open spec fn regla(ruta: Seq<char>, mascara: Seq<char>) -> Result<Seq<char>, Motivo> {
    if !(ruta.len() > 0 && ruta[0] == '/') {
        Err(Motivo::NoEsAbsoluta)
    } else {
        match primer_ambiguo_desde(ruta, 0) {
            Some(c) => Err(Motivo::CaracterAmbiguo(c)),
            None => match mascara_normalizada(mascara) {
                Err(e) => Err(e),
                Ok(p) => Ok(seq!['"'] + ruta + seq!['"', ' '] + p + seq![',']),
            },
        }
    }
}

/// The rule line that allows that path with those permissions.
pub fn regla_para(ruta: &str, mascara: &str) -> (r: Result<String, Motivo>)
    ensures
        match r {
            Ok(s) => regla(ruta@, mascara@) == Ok::<Seq<char>, Motivo>(s@),
            Err(e) => regla(ruta@, mascara@) == Err::<Seq<char>, Motivo>(e),
        },
{
    let c = caracteres(ruta);
    if !(c.len() > 0 && c[0] == '/') {
        return Err(Motivo::NoEsAbsoluta);
    }
    let mut i: usize = 0;
    while i < c.len()
        invariant
            i <= c.len(),
            c@ == ruta@,
            c@.len() > 0 && c@[0] == '/',
            primer_ambiguo_desde(c@, 0) == primer_ambiguo_desde(c@, i as int),
        decreases c.len() - i,
    {
        let x = c[i];
        if x == '*' || x == '?' || x == '[' || x == ']' || x == '{' || x == '}' || x == '"' || x
            == '\\' || x == '\n' || x == '\r' || x == ',' || x == '#' || x == '\0' {
            return Err(Motivo::CaracterAmbiguo(x));
        }
        i = i + 1;
    }
    let permisos = match mascara_valida(mascara) {
        Ok(p) => p,
        Err(e) => return Err(e),
    };
    let mut v: Vec<char> = Vec::new();
    v.push('"');
    anexar(&mut v, c.as_slice());
    v.push('"');
    v.push(' ');
    anexar(&mut v, caracteres(permisos.as_str()).as_slice());
    v.push(',');
    assert(v@ =~= seq!['"'] + ruta@ + seq!['"', ' '] + permisos@ + seq![',']);
    Ok(cadena(v.as_slice()))
}

proof fn lema_sin_ambiguos(s: Seq<char>, i: int)
    requires
        0 <= i,
        primer_ambiguo_desde(s, i) is None,
    ensures
        forall|j: int| i <= j < s.len() ==> !es_ambiguo(#[trigger] s[j]),
    decreases s.len() - i,
{
    if i < s.len() {
        lema_sin_ambiguos(s, i + 1);
    }
}

/// A rule is one rule: it opens with the quote before the path, the only
/// other quote closes the path, it ends with the comma, and no comma, hash,
/// line break, wildcard or backslash anywhere else could close it and open
/// another one, whatever path the blocked program chose.
pub proof fn una_regla_es_una_sola(ruta: Seq<char>, mascara: Seq<char>)
    requires
        regla(ruta, mascara) is Ok,
    ensures
        ({
            let t = regla(ruta, mascara)->Ok_0;
            &&& t[0] == '"'
            &&& t[ruta.len() + 1int] == '"'
            &&& t.last() == ','
            &&& forall|i: int|
                1 <= i < t.len() - 1 && i != ruta.len() + 1 ==> !es_ambiguo(#[trigger] t[i])
        }),
{
    lema_sin_ambiguos(ruta, 0);
    let p = mascara_normalizada(mascara)->Ok_0;
    let pred = |c: char| mascara.contains(c);
    let orden = orden_de_permisos();
    assert forall|i: int| 0 <= i < p.len() implies es_permiso(#[trigger] p[i]) by {
        orden.lemma_filter_contains_rev(pred, p[i]);
        assert(p.contains(p[i]));
    }
    let t = regla(ruta, mascara)->Ok_0;
    assert forall|i: int| 1 <= i < t.len() - 1 && i != ruta.len() + 1 implies !es_ambiguo(
        #[trigger] t[i],
    ) by {
        if i <= ruta.len() {
            assert(t[i] == ruta[i - 1]);
        } else if i == ruta.len() + 2 {
        } else {
            assert(t[i] == p[i - ruta.len() - 3]);
        }
    }
}

/// The exceptions file of a profile: `perfil` inside `raiz`, as `Path::join`
/// puts it, an absolute name replacing the directory.
pub open spec fn archivo_de_perfil(perfil: Seq<char>, raiz: Seq<char>) -> Seq<char> {
    if perfil.len() > 0 && perfil[0] == '/' {
        perfil
    } else if raiz.len() == 0 {
        perfil
    } else if raiz.last() == '/' {
        raiz + perfil
    } else {
        raiz + seq!['/'] + perfil
    }
}

pub fn archivo_de(perfil: &str, raiz: &str) -> (r: String)
    ensures
        r@ == archivo_de_perfil(perfil@, raiz@),
{
    let p = caracteres(perfil);
    if p.len() > 0 && p[0] == '/' {
        return cadena(p.as_slice());
    }
    let mut v = caracteres(raiz);
    if v.len() > 0 && v[v.len() - 1] != '/' {
        v.push('/');
    }
    anexar(&mut v, p.as_slice());
    cadena(v.as_slice())
}

/// The lines every exceptions file begins with, all of them comments.
pub open spec fn cabecera() -> Seq<Seq<char>> {
    seq![
        "# ARCHIVO GENERADO — no editar a mano."@,
        "#"@,
        "# Lo que se le permitió a este perfil desde Configuración, además de lo que su"@,
        "# perfil trae. El perfil lo carga con `include if exists <local/…>`, así que"@,
        "# esto sobrevive a que el paquete de perfiles se actualice."@,
        "#"@,
        "# Borrar una línea vuelve a bloquear eso."@,
    ]
}

fn lineas_de_cabecera() -> (v: Vec<&'static str>)
    ensures
        v@.map_values(|s: &'static str| s@) == cabecera(),
{
    let mut v: Vec<&'static str> = Vec::new();
    v.push("# ARCHIVO GENERADO — no editar a mano.");
    v.push("#");
    v.push("# Lo que se le permitió a este perfil desde Configuración, además de lo que su");
    v.push("# perfil trae. El perfil lo carga con `include if exists <local/…>`, así que");
    v.push("# esto sobrevive a que el paquete de perfiles se actualice.");
    v.push("#");
    v.push("# Borrar una línea vuelve a bloquear eso.");
    assert(v@.map_values(|s: &'static str| s@) =~= cabecera());
    v
}

/// Lines joined, each followed by a line break.
pub open spec fn unir_lineas(l: Seq<Seq<char>>) -> Seq<char>
    decreases l.len(),
{
    if l.len() == 0 {
        Seq::empty()
    } else {
        l[0] + seq!['\n'] + unir_lineas(l.drop_first())
    }
}

/// A rule as it is written in the file: indented by two spaces.
pub open spec fn sangrada(r: Seq<char>) -> Seq<char> {
    seq![' ', ' '] + r
}

/// The text of an exceptions file with these rules.
pub open spec fn texto_de_reglas(reglas: Seq<Seq<char>>) -> Seq<char> {
    unir_lineas(cabecera()) + unir_lineas(reglas.map_values(|r: Seq<char>| sangrada(r)))
}

/// The rules an exceptions file holds: its lines, trimmed, without the empty
/// ones and the comments.
pub open spec fn reglas_del_texto(t: Seq<char>) -> Seq<Seq<char>> {
    lineas_de(t).map_values(|l: Seq<char>| recortar(l)).filter(
        |l: Seq<char>| l.len() > 0 && l[0] != '#',
    )
}

pub open spec fn vista_de_reglas(v: Seq<String>) -> Seq<Seq<char>> {
    v.map_values(|s: String| s@)
}

/// The rules already granted to a profile, read from the text of its
/// exceptions file. A profile without a file has none.
pub fn concedidas_en(texto: &str) -> (r: Vec<String>)
    ensures
        vista_de_reglas(r@) == reglas_del_texto(texto@),
{
    let t = caracteres(texto);
    let ls = lineas(t.as_slice());
    let ghost todas = lineas_de(texto@).map_values(|l: Seq<char>| recortar(l));
    let ghost pred = |l: Seq<char>| l.len() > 0 && l[0] != '#';
    let mut r: Vec<String> = Vec::new();
    let mut i: usize = 0;
    while i < ls.len()
        invariant
            i <= ls@.len(),
            ls@.map_values(|l: Vec<char>| l@) == lineas_de(texto@),
            todas == lineas_de(texto@).map_values(|l: Seq<char>| recortar(l)),
            pred == (|l: Seq<char>| l.len() > 0 && l[0] != '#'),
            vista_de_reglas(r@) == todas.take(i as int).filter(pred),
        decreases ls@.len() - i,
    {
        let l = recortado(ls[i].as_slice());
        proof {
            assert(ls@.map_values(|l: Vec<char>| l@)[i as int] == ls@[i as int]@);
            assert(todas[i as int] == l@);
            let u = todas.take(i + 1);
            assert(u.drop_last() =~= todas.take(i as int));
            assert(u.last() == l@);
            reveal(Seq::filter);
        }
        if l.len() > 0 && l[0] != '#' {
            let ghost antes = r@;
            r.push(cadena(l.as_slice()));
            assert(vista_de_reglas(r@) =~= vista_de_reglas(antes).push(l@));
        }
        i = i + 1;
    }
    assert(todas.take(ls@.len() as int) =~= todas);
    r
}

/// Whether `regla` is among `reglas`.
fn esta_entre(reglas: &[String], regla: &str) -> (r: bool)
    ensures
        r == vista_de_reglas(reglas@).contains(regla@),
{
    let buscada = caracteres(regla);
    let mut i: usize = 0;
    while i < reglas.len()
        invariant
            i <= reglas.len(),
            buscada@ == regla@,
            forall|j: int| 0 <= j < i ==> reglas@[j]@ != regla@,
        decreases reglas.len() - i,
    {
        if iguales(caracteres(reglas[i].as_str()).as_slice(), buscada.as_slice()) {
            assert(vista_de_reglas(reglas@)[i as int] == regla@);
            return true;
        }
        i = i + 1;
    }
    proof {
        if vista_de_reglas(reglas@).contains(regla@) {
            let j = choose|j: int|
                0 <= j < vista_de_reglas(reglas@).len() && vista_de_reglas(reglas@)[j] == regla@;
            assert(reglas@[j]@ == regla@);
        }
    }
    false
}

/// Adds a rule to a profile's rules without repeating it. `None` when it was
/// already there: nothing changes, so there is nothing to write or reload.
pub fn conceder_en(perfil: &str, regla: &str, existentes: &[String]) -> (r: Result<
    Option<Vec<String>>,
    Motivo,
>)
    ensures
        !perfil_utilizable(perfil@) ==> r == Err::<Option<Vec<String>>, Motivo>(
            Motivo::PerfilInvalido,
        ),
        perfil_utilizable(perfil@) ==> match r {
            Ok(None) => vista_de_reglas(existentes@).contains(regla@),
            Ok(Some(v)) => !vista_de_reglas(existentes@).contains(regla@) && vista_de_reglas(v@)
                == vista_de_reglas(existentes@).push(regla@),
            Err(_) => false,
        },
{
    if !perfil_valido(perfil) {
        return Err(Motivo::PerfilInvalido);
    }
    if esta_entre(existentes, regla) {
        return Ok(None);
    }
    let mut v: Vec<String> = Vec::new();
    let mut i: usize = 0;
    while i < existentes.len()
        invariant
            i <= existentes.len(),
            vista_de_reglas(v@) == vista_de_reglas(existentes@.take(i as int)),
        decreases existentes.len() - i,
    {
        v.push(existentes[i].clone());
        assert(vista_de_reglas(existentes@.take(i + 1)) =~= vista_de_reglas(
            existentes@.take(i as int),
        ).push(existentes@[i as int]@));
        i = i + 1;
    }
    assert(existentes@.take(existentes.len() as int) =~= existentes@);
    v.push(regla.to_owned());
    Ok(Some(v))
}

/// Takes a rule out of a profile's rules. `None` when it was not there.
pub fn revocar_en(perfil: &str, regla: &str, existentes: &[String]) -> (r: Result<
    Option<Vec<String>>,
    Motivo,
>)
    ensures
        !perfil_utilizable(perfil@) ==> r == Err::<Option<Vec<String>>, Motivo>(
            Motivo::PerfilInvalido,
        ),
        perfil_utilizable(perfil@) ==> match r {
            Ok(None) => !vista_de_reglas(existentes@).contains(regla@),
            Ok(Some(v)) => vista_de_reglas(existentes@).contains(regla@) && vista_de_reglas(v@)
                == vista_de_reglas(existentes@).filter(|x: Seq<char>| x != regla@),
            Err(_) => false,
        },
{
    if !perfil_valido(perfil) {
        return Err(Motivo::PerfilInvalido);
    }
    if !esta_entre(existentes, regla) {
        return Ok(None);
    }
    let buscada = caracteres(regla);
    let ghost pred = |x: Seq<char>| x != regla@;
    let mut v: Vec<String> = Vec::new();
    let mut i: usize = 0;
    while i < existentes.len()
        invariant
            i <= existentes.len(),
            buscada@ == regla@,
            pred == (|x: Seq<char>| x != regla@),
            vista_de_reglas(v@) == vista_de_reglas(existentes@).take(i as int).filter(pred),
        decreases existentes.len() - i,
    {
        let igual = iguales(caracteres(existentes[i].as_str()).as_slice(), buscada.as_slice());
        proof {
            let u = vista_de_reglas(existentes@).take(i + 1);
            assert(u.drop_last() =~= vista_de_reglas(existentes@).take(i as int));
            assert(u.last() == existentes@[i as int]@);
            reveal(Seq::filter);
        }
        if !igual {
            let ghost antes = v@;
            v.push(existentes[i].clone());
            assert(vista_de_reglas(v@) =~= vista_de_reglas(antes).push(existentes@[i as int]@));
        }
        i = i + 1;
    }
    assert(vista_de_reglas(existentes@).take(existentes.len() as int) =~= vista_de_reglas(
        existentes@,
    ));
    Ok(Some(v))
}

/// The text of the exceptions file for these rules: the comment lines, then
/// each rule on its own line, indented.
pub fn texto_de_excepciones(reglas: &[String]) -> (r: String)
    ensures
        r@ == texto_de_reglas(vista_de_reglas(reglas@)),
{
    let cab = lineas_de_cabecera();
    let mut v: Vec<char> = Vec::new();
    let mut i: usize = 0;
    assert(cabecera().skip(0) =~= cabecera());
    assert(v@ + unir_lineas(cabecera()) =~= unir_lineas(cabecera()));
    while i < cab.len()
        invariant
            i <= cab@.len(),
            cab@.map_values(|s: &'static str| s@) == cabecera(),
            unir_lineas(cabecera()) == v@ + unir_lineas(cabecera().skip(i as int)),
        decreases cab@.len() - i,
    {
        let ghost antes = v@;
        anexar(&mut v, caracteres(cab[i]).as_slice());
        v.push('\n');
        proof {
            let s = cabecera().skip(i as int);
            assert(s[0] == cab@[i as int]@);
            assert(s.drop_first() =~= cabecera().skip(i + 1));
            assert(v@ =~= antes + s[0] + seq!['\n']);
            assert(antes + unir_lineas(s) =~= v@ + unir_lineas(s.drop_first()));
        }
        i = i + 1;
    }
    assert(cabecera().skip(cab@.len() as int) =~= Seq::<Seq<char>>::empty());
    let ghost sangradas = vista_de_reglas(reglas@).map_values(|r: Seq<char>| sangrada(r));
    let ghost prefijo = v@;
    assert(sangradas.skip(0) =~= sangradas);
    assert(v@ + Seq::<char>::empty() =~= v@);
    let mut j: usize = 0;
    while j < reglas.len()
        invariant
            j <= reglas@.len(),
            sangradas == vista_de_reglas(reglas@).map_values(|r: Seq<char>| sangrada(r)),
            prefijo == unir_lineas(cabecera()),
            prefijo + unir_lineas(sangradas) == v@ + unir_lineas(sangradas.skip(j as int)),
        decreases reglas@.len() - j,
    {
        let ghost antes = v@;
        v.push(' ');
        v.push(' ');
        anexar(&mut v, caracteres(reglas[j].as_str()).as_slice());
        v.push('\n');
        proof {
            let s = sangradas.skip(j as int);
            assert(s[0] == sangrada(reglas@[j as int]@));
            assert(s.drop_first() =~= sangradas.skip(j + 1));
            assert(v@ =~= antes + s[0] + seq!['\n']);
            assert(antes + unir_lineas(s) =~= v@ + unir_lineas(s.drop_first()));
        }
        j = j + 1;
    }
    assert(sangradas.skip(reglas@.len() as int) =~= Seq::<Seq<char>>::empty());
    cadena(v.as_slice())
}

/// A rule the exceptions file can hold and give back as it was: not empty,
/// not a comment, on one line, and with no whitespace at either end. Every
/// rule `regla_para` writes is one.
pub open spec fn regla_releible(r: Seq<char>) -> bool {
    &&& r.len() > 0
    &&& r[0] != '#'
    &&& !es_espacio(r[0])
    &&& !es_espacio(r.last())
    &&& forall|i: int| 0 <= i < r.len() ==> #[trigger] r[i] != '\n'
}

proof fn lema_lineas_sin_salto(a: Seq<char>, b: Seq<char>, actual: Seq<char>)
    requires
        forall|i: int| 0 <= i < a.len() ==> #[trigger] a[i] != '\n',
    ensures
        lineas_con(a + b, actual) == lineas_con(b, actual + a),
    decreases a.len(),
{
    if a.len() > 0 {
        assert((a + b)[0] == a[0]);
        assert((a + b).drop_first() =~= a.drop_first() + b);
        assert forall|i: int| 0 <= i < a.drop_first().len() implies #[trigger] a.drop_first()[i]
            != '\n' by {
            assert(a.drop_first()[i] == a[i + 1]);
        }
        lema_lineas_sin_salto(a.drop_first(), b, actual.push(a[0]));
        assert(actual.push(a[0]) + a.drop_first() =~= actual + a);
    } else {
        assert(a + b =~= b);
        assert(actual + a =~= actual);
    }
}

proof fn lema_lineas_unidas(l: Seq<Seq<char>>, resto: Seq<char>)
    requires
        forall|k: int, i: int| 0 <= k < l.len() && 0 <= i < l[k].len() ==> #[trigger] l[k][i] != '\n',
    ensures
        lineas_con(unir_lineas(l) + resto, Seq::empty()) == l.map_values(|x: Seq<char>| sin_retorno(x))
            + lineas_con(resto, Seq::empty()),
    decreases l.len(),
{
    if l.len() > 0 {
        let x = l[0];
        let w = unir_lineas(l.drop_first()) + resto;
        assert(unir_lineas(l) + resto =~= x + (seq!['\n'] + w));
        assert forall|i: int| 0 <= i < x.len() implies #[trigger] x[i] != '\n' by {
            assert(l[0][i] != '\n');
        }
        lema_lineas_sin_salto(x, seq!['\n'] + w, Seq::empty());
        assert(Seq::<char>::empty() + x =~= x);
        assert((seq!['\n'] + w)[0] == '\n');
        assert((seq!['\n'] + w).drop_first() =~= w);
        assert forall|k: int, i: int|
            0 <= k < l.drop_first().len() && 0 <= i < l.drop_first()[k].len() implies #[trigger] l.drop_first()[k][i]
            != '\n' by {
            assert(l.drop_first()[k] == l[k + 1]);
        }
        lema_lineas_unidas(l.drop_first(), resto);
        assert(l.map_values(|x: Seq<char>| sin_retorno(x)) =~= seq![sin_retorno(x)]
            + l.drop_first().map_values(|x: Seq<char>| sin_retorno(x)));
    } else {
        assert(unir_lineas(l) + resto =~= resto);
        assert(l.map_values(|x: Seq<char>| sin_retorno(x)) + lineas_con(resto, Seq::empty())
            =~= lineas_con(resto, Seq::empty()));
    }
}

proof fn lema_filtro_vacio(s: Seq<Seq<char>>, p: spec_fn(Seq<char>) -> bool)
    requires
        forall|i: int| 0 <= i < s.len() ==> !p(#[trigger] s[i]),
    ensures
        s.filter(p) =~= Seq::<Seq<char>>::empty(),
    decreases s.len(),
{
    reveal(Seq::filter);
    if s.len() > 0 {
        assert forall|i: int| 0 <= i < s.drop_last().len() implies !p(#[trigger] s.drop_last()[i]) by {
            assert(s.drop_last()[i] == s[i]);
        }
        lema_filtro_vacio(s.drop_last(), p);
        assert(!p(s[s.len() - 1]));
    }
}

proof fn lema_filtro_todo(s: Seq<Seq<char>>, p: spec_fn(Seq<char>) -> bool)
    requires
        forall|i: int| 0 <= i < s.len() ==> p(#[trigger] s[i]),
    ensures
        s.filter(p) =~= s,
    decreases s.len(),
{
    reveal(Seq::filter);
    if s.len() > 0 {
        assert forall|i: int| 0 <= i < s.drop_last().len() implies p(#[trigger] s.drop_last()[i]) by {
            assert(s.drop_last()[i] == s[i]);
        }
        lema_filtro_todo(s.drop_last(), p);
        assert(p(s[s.len() - 1]));
        assert(s.drop_last().push(s.last()) =~= s);
    }
}

proof fn lema_final_conserva_el_primero(l: Seq<char>)
    requires
        l.len() > 0,
        !es_espacio(l[0]),
    ensures
        sin_espacios_al_final(l).len() > 0,
        sin_espacios_al_final(l)[0] == l[0],
    decreases l.len(),
{
    if es_espacio(l.last()) {
        assert(l.len() > 1);
        assert(l.drop_last()[0] == l[0]);
        lema_final_conserva_el_primero(l.drop_last());
    }
}

proof fn lema_cabecera()
    ensures
        forall|k: int, i: int|
            0 <= k < cabecera().len() && 0 <= i < cabecera()[k].len() ==> #[trigger] cabecera()[k][i]
                != '\n',
        forall|k: int|
            0 <= k < cabecera().len() ==> #[trigger] cabecera()[k].len() > 0 && cabecera()[k][0] == '#'
                && cabecera()[k].last() != '\r',
{
    reveal_strlit("# ARCHIVO GENERADO — no editar a mano.");
    reveal_strlit("#");
    reveal_strlit("# Lo que se le permitió a este perfil desde Configuración, además de lo que su");
    reveal_strlit("# perfil trae. El perfil lo carga con `include if exists <local/…>`, así que");
    reveal_strlit("# esto sobrevive a que el paquete de perfiles se actualice.");
    reveal_strlit("# Borrar una línea vuelve a bloquear eso.");
}

/// What is written is read back the same: the rules of the text written for
/// some rules are those rules, in the same order, so revoking finds the rule
/// it wants to take out.
pub proof fn lo_escrito_se_relee_identico(reglas: Seq<Seq<char>>)
    requires
        forall|k: int| 0 <= k < reglas.len() ==> regla_releible(#[trigger] reglas[k]),
    ensures
        reglas_del_texto(texto_de_reglas(reglas)) == reglas,
{
    let cab = cabecera();
    let s = reglas.map_values(|r: Seq<char>| sangrada(r));
    lema_cabecera();
    assert forall|k: int, i: int| 0 <= k < s.len() && 0 <= i < s[k].len() implies #[trigger] s[k][i]
        != '\n' by {
        assert(s[k] == seq![' ', ' '] + reglas[k]);
        if i >= 2 {
            assert(s[k][i] == reglas[k][i - 2]);
        }
    }
    lema_lineas_unidas(cab, unir_lineas(s));
    lema_lineas_unidas(s, Seq::empty());
    assert(unir_lineas(s) + Seq::<char>::empty() =~= unir_lineas(s));
    let ls = lineas_de(texto_de_reglas(reglas));
    let lc = cab.map_values(|x: Seq<char>| sin_retorno(x));
    let lr = s.map_values(|x: Seq<char>| sin_retorno(x));
    assert(ls =~= lc + lr);
    let f = |l: Seq<char>| recortar(l);
    let p = |l: Seq<char>| l.len() > 0 && l[0] != '#';
    assert(ls.map_values(f) =~= lc.map_values(f) + lr.map_values(f));
    assert forall|i: int| 0 <= i < lc.map_values(f).len() implies !p(#[trigger] lc.map_values(f)[i]) by {
        let l = cab[i];
        assert(sin_retorno(l) == l);
        assert(sin_espacios_al_principio(l) == l);
        lema_final_conserva_el_primero(l);
    }
    lema_filtro_vacio(lc.map_values(f), p);
    assert forall|i: int| 0 <= i < lr.map_values(f).len() implies lr.map_values(f)[i] == reglas[i] by {
        let r = reglas[i];
        let x = sangrada(r);
        assert(x.last() == r.last());
        assert(sin_retorno(x) == x);
        assert(x.drop_first().drop_first() =~= r);
        assert(sin_espacios_al_principio(x.drop_first()) == sin_espacios_al_principio(r));
        assert(sin_espacios_al_principio(x) == r);
        assert(sin_espacios_al_final(r) == r);
    }
    assert(lr.map_values(f) =~= reglas);
    lema_filtro_todo(reglas, p);
    Seq::filter_distributes_over_add(lc.map_values(f), lr.map_values(f), p);
    assert(Seq::<Seq<char>>::empty() + reglas =~= reglas);
}

/// Every rule `regla_para` writes can be written to the exceptions file and
/// read back as it was.
pub proof fn toda_regla_se_relee(ruta: Seq<char>, mascara: Seq<char>)
    requires
        regla(ruta, mascara) is Ok,
    ensures
        regla_releible(regla(ruta, mascara)->Ok_0),
{
    una_regla_es_una_sola(ruta, mascara);
    let t = regla(ruta, mascara)->Ok_0;
    assert forall|i: int| 0 <= i < t.len() implies #[trigger] t[i] != '\n' by {
        if 1 <= i < t.len() - 1 && i != ruta.len() + 1 {
            assert(!es_ambiguo(t[i]));
        }
    }
}

} // verus!
