//! Working out which program is asking, and how much its path is worth.
//!
//! Pinning the process and reading its executable is done by the program
//! around this library. What is decided here is who may speak for whom, how
//! far a path can be vouched for, and which name a person will recognise.
use vstd::prelude::*;
use crate::protocol::Provenance;
use crate::texto::{
    cadena, caracteres, empieza, empieza_con, iguales, lineas, lineas_de, palabras_de, recortado,
    recortar, tramo, trozos, trozos_con,
};

verus! {

broadcast use vstd::string::group_string_axioms;

/// Whether a delegate may ask about a process of `subject_uid`.
///
/// The system delegate runs as root on purpose, since the tokens live in
/// root's files, and it speaks for anybody. An unprivileged delegate is kept
/// to its own user: anyone can run a copy of a delegate's executable as
/// themselves, and asking about someone else's process would leak that
/// person's decision in the return value and open dialogs in their session.
pub fn delegate_may_speak_for(delegate_uid: u32, subject_uid: u32) -> (r: bool)
    ensures
        r == (delegate_uid == 0 || delegate_uid == subject_uid),
{
    delegate_uid == 0 || delegate_uid == subject_uid
}

/// Paths only root can write to. A decision recorded against a binary there
/// cannot be turned into a decision about different code without root.
pub open spec fn prefijos_del_sistema() -> Seq<Seq<char>> {
    seq!["/usr/"@, "/opt/"@, "/bin/"@]
}

/// How much a program at `ruta` can be vouched for: installed by the system
/// only when it is a plain existing file under a path only root can write. A
/// deleted binary, or anything the user could replace, is unverified.
pub open spec fn procedencia(ruta: Seq<char>, es_archivo: bool) -> Provenance {
    if es_archivo && exists|i: int|
        0 <= i < prefijos_del_sistema().len() && empieza_con(
            ruta,
            #[trigger] prefijos_del_sistema()[i],
        ) {
        Provenance::SystemInstalled
    } else {
        Provenance::Unverified
    }
}

/// Whether the executable lives somewhere the user could replace it.
/// `is_file` is whether the path names a plain file that exists.
pub fn provenance_of(executable: &str, is_file: bool) -> (r: Provenance)
    ensures
        r == procedencia(executable@, is_file),
{
    if !is_file {
        return Provenance::Unverified;
    }
    let ruta = caracteres(executable);
    let usr = caracteres("/usr/");
    let opt = caracteres("/opt/");
    let bin = caracteres("/bin/");
    if empieza(ruta.as_slice(), usr.as_slice()) || empieza(ruta.as_slice(), opt.as_slice())
        || empieza(ruta.as_slice(), bin.as_slice()) {
        proof {
            if empieza_con(executable@, "/usr/"@) {
                assert(empieza_con(executable@, prefijos_del_sistema()[0]));
            } else if empieza_con(executable@, "/opt/"@) {
                assert(empieza_con(executable@, prefijos_del_sistema()[1]));
            } else {
                assert(empieza_con(executable@, prefijos_del_sistema()[2]));
            }
        }
        Provenance::SystemInstalled
    } else {
        proof {
            assert forall|i: int| 0 <= i < prefijos_del_sistema().len() implies !empieza_con(
                executable@,
                #[trigger] prefijos_del_sistema()[i],
            ) by {
                if i == 0 {
                } else if i == 1 {
                } else {
                }
            }
        }
        Provenance::Unverified
    }
}

/// The components of a path with `.` normalised away, as `Path::components`
/// gives the normal ones.
pub open spec fn componentes(ruta: Seq<char>) -> Seq<Seq<char>> {
    trozos_con(ruta, false, Seq::empty()).filter(|t: Seq<char>| t != seq!['.'])
}

/// `Path::file_name`: the last component, unless there is none or it is `..`.
pub open spec fn nombre_de_archivo(ruta: Seq<char>) -> Option<Seq<char>> {
    let c = componentes(ruta);
    if c.len() == 0 || c.last() == seq!['.', '.'] {
        None
    } else {
        Some(c.last())
    }
}

/// The file name of a path.
pub fn file_name(ruta: &str) -> (r: Option<String>)
    ensures
        match r {
            Some(n) => nombre_de_archivo(ruta@) == Some(n@),
            None => nombre_de_archivo(ruta@) is None,
        },
{
    let c = caracteres(ruta);
    let partes = trozos(c.as_slice(), false);
    let ghost todas = trozos_con(ruta@, false, Seq::empty());
    let ghost pred = |t: Seq<char>| t != seq!['.'];
    let punto = vec!['.'];
    assert(punto@ =~= seq!['.']);
    let mut ultima: Option<usize> = None;
    let mut i: usize = 0;
    while i < partes.len()
        invariant
            i <= partes@.len(),
            partes@.map_values(|l: Vec<char>| l@) == todas,
            todas == trozos_con(ruta@, false, Seq::empty()),
            pred == (|t: Seq<char>| t != seq!['.']),
            punto@ == seq!['.'],
            match ultima {
                Some(k) => k < i && todas.take(i as int).filter(pred).len() > 0
                    && todas.take(i as int).filter(pred).last() == todas[k as int],
                None => todas.take(i as int).filter(pred).len() == 0,
            },
        decreases partes@.len() - i,
    {
        let es_punto = iguales(partes[i].as_slice(), punto.as_slice());
        proof {
            assert(partes@.map_values(|l: Vec<char>| l@)[i as int] == partes@[i as int]@);
            let u = todas.take(i + 1);
            assert(u.drop_last() =~= todas.take(i as int));
            assert(u.last() == todas[i as int]);
            reveal(Seq::filter);
        }
        if !es_punto {
            ultima = Some(i);
        }
        i = i + 1;
    }
    assert(todas.take(partes@.len() as int) =~= todas);
    match ultima {
        None => None,
        Some(k) => {
            assert(partes@.map_values(|l: Vec<char>| l@)[k as int] == partes@[k as int]@);
            let dos_puntos = vec!['.', '.'];
            assert(dos_puntos@ =~= seq!['.', '.']);
            if iguales(partes[k].as_slice(), dos_puntos.as_slice()) {
                None
            } else {
                Some(cadena(partes[k].as_slice()))
            }
        },
    }
}

/// The name a person will recognise: the desktop entry's, when one matches,
/// because "Cámara" means something and "vasak-camera-tool" does not;
/// otherwise the file name, or the whole path when it has none.
pub open spec fn nombre_para_mostrar(ruta: Seq<char>, de_escritorio: Option<Seq<char>>) -> Seq<
    char,
> {
    match de_escritorio {
        Some(n) => n,
        None => match nombre_de_archivo(ruta) {
            Some(f) => f,
            None => ruta,
        },
    }
}

/// A name a person will recognise, given the name a matching desktop entry
/// gives the program, when one was found.
pub fn display_name_for(executable: &str, desktop_name: Option<String>) -> (r: String)
    ensures
        r@ == nombre_para_mostrar(
            executable@,
            match desktop_name {
                Some(n) => Some(n@),
                None => None,
            },
        ),
{
    match desktop_name {
        Some(n) => n,
        None => match file_name(executable) {
            Some(f) => f,
            None => executable.to_owned(),
        },
    }
}

/// The first word of `s`, as `split_whitespace().next().unwrap_or("")`.
pub open spec fn primera_palabra(s: Seq<char>) -> Seq<char> {
    if palabras_de(s).len() > 0 {
        palabras_de(s)[0]
    } else {
        Seq::empty()
    }
}

/// What reading a desktop entry has found so far: whether the current group
/// is the main one, the `Name` seen in it, and whether its `Exec` runs the
/// program.
pub open spec fn leer_entrada(
    ls: Seq<Seq<char>>,
    ejecutable: Seq<char>,
    archivo: Seq<char>,
) -> (bool, Option<Seq<char>>, bool)
    decreases ls.len(),
{
    if ls.len() == 0 {
        (false, None, false)
    } else {
        let (grupo, nombre, coincide) = leer_entrada(ls.drop_last(), ejecutable, archivo);
        let l = recortar(ls.last());
        if l.len() > 0 && l[0] == '[' {
            (l == "[Desktop Entry]"@, nombre, coincide)
        } else if !grupo {
            (grupo, nombre, coincide)
        } else if empieza_con(l, "Name="@) {
            (grupo, Some(recortar(l.subrange("Name="@.len() as int, l.len() as int))), coincide)
        } else if empieza_con(l, "Exec="@) {
            let programa = primera_palabra(l.subrange("Exec="@.len() as int, l.len() as int));
            (grupo, nombre, programa == ejecutable || programa == archivo)
        } else {
            (grupo, nombre, coincide)
        }
    }
}

/// The `Name` of a desktop entry whose `Exec` runs this program. Only the
/// `[Desktop Entry]` group counts, so a name from an action group ("New
/// Window") cannot win over the real one; localised keys are skipped.
pub open spec fn nombre_de_entrada(contenido: Seq<char>, ejecutable: Seq<char>, archivo: Seq<char>) -> Option<
    Seq<char>,
> {
    let (_, nombre, coincide) = leer_entrada(lineas_de(contenido), ejecutable, archivo);
    if coincide {
        nombre
    } else {
        None
    }
}

/// Reads a desktop entry and returns its `Name` when its `Exec` runs this
/// program, given by its path and by its file name.
pub fn matching_entry_name(contents: &str, executable: &str, file_name: &str) -> (r: Option<String>)
    ensures
        match r {
            Some(n) => nombre_de_entrada(contents@, executable@, file_name@) == Some(n@),
            None => nombre_de_entrada(contents@, executable@, file_name@) is None,
        },
{
    let t = caracteres(contents);
    let ls = lineas(t.as_slice());
    let ejecutable = caracteres(executable);
    let archivo = caracteres(file_name);
    let grupo_principal = caracteres("[Desktop Entry]");
    let clave_nombre = caracteres("Name=");
    let clave_exec = caracteres("Exec=");
    let mut en_grupo = false;
    let mut nombre: Option<Vec<char>> = None;
    let mut coincide = false;
    let mut i: usize = 0;
    while i < ls.len()
        invariant
            i <= ls@.len(),
            ls@.map_values(|l: Vec<char>| l@) == lineas_de(contents@),
            ejecutable@ == executable@,
            archivo@ == file_name@,
            grupo_principal@ == "[Desktop Entry]"@,
            clave_nombre@ == "Name="@,
            clave_exec@ == "Exec="@,
            leer_entrada(lineas_de(contents@).take(i as int), executable@, file_name@) == (
                en_grupo,
                match nombre {
                    Some(n) => Some(n@),
                    None => None,
                },
                coincide,
            ),
        decreases ls@.len() - i,
    {
        let l = recortado(ls[i].as_slice());
        proof {
            assert(ls@.map_values(|l: Vec<char>| l@)[i as int] == ls@[i as int]@);
            let u = lineas_de(contents@).take(i + 1);
            assert(u.drop_last() =~= lineas_de(contents@).take(i as int));
            assert(u.last() == ls@[i as int]@);
        }
        if l.len() > 0 && l[0] == '[' {
            en_grupo = iguales(l.as_slice(), grupo_principal.as_slice());
        } else if !en_grupo {
        } else if empieza(l.as_slice(), clave_nombre.as_slice()) {
            let valor = tramo(l.as_slice(), clave_nombre.len(), l.len());
            nombre = Some(recortado(valor.as_slice()));
        } else if empieza(l.as_slice(), clave_exec.as_slice()) {
            let valor = tramo(l.as_slice(), clave_exec.len(), l.len());
            let palabras = trozos(valor.as_slice(), true);
            let programa: Vec<char> = if palabras.len() > 0 {
                assert(palabras@.map_values(|l: Vec<char>| l@)[0] == palabras@[0]@);
                tramo(palabras[0].as_slice(), 0, palabras[0].len())
            } else {
                Vec::new()
            };
            proof {
                if palabras@.len() > 0 {
                    assert(palabras@[0]@.subrange(0, palabras@[0]@.len() as int) =~= palabras@[0]@);
                } else {
                    assert(programa@ =~= Seq::<char>::empty());
                }
            }
            coincide = iguales(programa.as_slice(), ejecutable.as_slice()) || iguales(
                programa.as_slice(),
                archivo.as_slice(),
            );
        }
        i = i + 1;
    }
    assert(lineas_de(contents@).take(ls@.len() as int) =~= lineas_de(contents@));
    if coincide {
        match nombre {
            Some(n) => Some(cadena(n.as_slice())),
            None => None,
        }
    } else {
        None
    }
}

/// Only a plain existing file under `/usr/`, `/opt/` or `/bin/`, the paths only
/// root can write, is installed by the system; everything else, a program
/// mounted under `/tmp` or in someone's home included, is unverified.
pub proof fn solo_root_instala(ruta: Seq<char>, es_archivo: bool)
    ensures
        procedencia(ruta, es_archivo) == Provenance::SystemInstalled <==> es_archivo && (empieza_con(
            ruta,
            "/usr/"@,
        ) || empieza_con(ruta, "/opt/"@) || empieza_con(ruta, "/bin/"@)),
{
    let p = prefijos_del_sistema();
    assert(p[0] == "/usr/"@ && p[1] == "/opt/"@ && p[2] == "/bin/"@);
    if es_archivo && empieza_con(ruta, "/usr/"@) {
        assert(empieza_con(ruta, p[0]));
    }
    if es_archivo && empieza_con(ruta, "/opt/"@) {
        assert(empieza_con(ruta, p[1]));
    }
    if es_archivo && empieza_con(ruta, "/bin/"@) {
        assert(empieza_con(ruta, p[2]));
    }
}

proof fn lema_lineas_tras_salto(a: Seq<char>, b: Seq<char>, actual: Seq<char>)
    requires
        a.len() > 0,
        a[a.len() - 1] == '\n',
    ensures
        crate::texto::lineas_con(a + b, actual) == crate::texto::lineas_con(a, actual)
            + crate::texto::lineas_con(b, Seq::empty()),
    decreases a.len(),
{
    let t = a + b;
    assert(t[0] == a[0]);
    assert(t.drop_first() =~= a.drop_first() + b);
    if a[0] == '\n' {
        if a.len() == 1 {
            assert(a.drop_first() =~= Seq::<char>::empty());
            assert(t.drop_first() =~= b);
        } else {
            lema_lineas_tras_salto(a.drop_first(), b, Seq::empty());
        }
    } else {
        lema_lineas_tras_salto(a.drop_first(), b, actual.push(a[0]));
    }
}

/// A group that is not the main one leaves what was read alone.
pub open spec fn grupo_ajeno(ls: Seq<Seq<char>>) -> bool {
    &&& ls.len() > 0
    &&& recortar(ls[0]).len() > 0 && recortar(ls[0])[0] == '['
    &&& forall|j: int| 0 <= j < ls.len() ==> recortar(#[trigger] ls[j]) != "[Desktop Entry]"@
}

proof fn lema_grupo_ajeno(la: Seq<Seq<char>>, lb: Seq<Seq<char>>, k: int, e: Seq<char>, f: Seq<char>)
    requires
        grupo_ajeno(lb),
        1 <= k <= lb.len(),
    ensures
        leer_entrada(la + lb.take(k), e, f) == (
            false,
            leer_entrada(la, e, f).1,
            leer_entrada(la, e, f).2,
        ),
    decreases k,
{
    let ls = la + lb.take(k);
    assert(ls.drop_last() =~= la + lb.take(k - 1));
    assert(ls.last() == lb[k - 1]);
    assert(recortar(lb[k - 1]) != "[Desktop Entry]"@);
    if k == 1 {
        assert(la + lb.take(0) =~= la);
    } else {
        lema_grupo_ajeno(la, lb, k - 1, e, f);
    }
}

/// Lines outside the `[Desktop Entry]` group change nothing: appending to a
/// desktop entry a group that is another one, such as an action, leaves the
/// name found for the program as it was, whatever `Name` and `Exec` that
/// group holds.
pub proof fn otro_grupo_no_cambia_el_nombre(a: Seq<char>, b: Seq<char>, e: Seq<char>, f: Seq<char>)
    requires
        a.len() == 0 || a[a.len() - 1] == '\n',
        grupo_ajeno(lineas_de(b)),
    ensures
        nombre_de_entrada(a + b, e, f) == nombre_de_entrada(a, e, f),
{
    let lb = lineas_de(b);
    if a.len() == 0 {
        assert(a + b =~= b);
        assert(lineas_de(a) =~= Seq::<Seq<char>>::empty());
        assert(lineas_de(a) + lb =~= lb);
    } else {
        lema_lineas_tras_salto(a, b, Seq::empty());
    }
    assert(lineas_de(a + b) == lineas_de(a) + lb);
    lema_grupo_ajeno(lineas_de(a), lb, lb.len() as int, e, f);
    assert(lb.take(lb.len() as int) =~= lb);
}

} // verus!
