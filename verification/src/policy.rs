//! The stored answers, and where the file for each user lives.
//!
//! Everything decided for one user is one [`UserPolicy`]: programs by the path
//! of their executable, and for each program its decisions by resource id. The
//! file itself belongs to root, one per user, and reading or writing it is left
//! to the program around this library; what is decided here is what a policy
//! says and how it changes.
use vstd::prelude::*;
use crate::protocol::{
    may_request, puede_pedir, Application, Decision, PermissionEntry, Provenance,
};
use crate::tabla::{lema_menor_transitivo, menor, ordenadas, Tabla};
use crate::texto::{anexar, cadena, caracteres, decimal, en_decimal, lema_decimal_inyectivo};

verus! {

broadcast use vstd::string::group_string_axioms;

/// Root-owned, outside every user's reach.
pub const POLICY_DIR: &'static str = "/var/lib/vasak-permissions";

/// What is kept about one program.
pub struct StoredApplication {
    pub display_name: String,
    pub provenance: Provenance,
    /// Whether this program asks the service before using a resource. A policy
    /// written before this was recorded reads as `false`: everything in it came
    /// from watching a block.
    pub asks: bool,
    /// Resource id to decision.
    pub decisions: Tabla<Decision>,
}

/// What is kept about one program, as a value.
pub struct VistaDeAplicacion {
    pub nombre: Seq<char>,
    pub procedencia: Provenance,
    pub pregunta: bool,
    pub decisiones: Map<Seq<char>, Decision>,
}

pub open spec fn vista_de(s: StoredApplication) -> VistaDeAplicacion {
    VistaDeAplicacion {
        nombre: s.display_name@,
        procedencia: s.provenance,
        pregunta: s.asks,
        decisiones: s.decisions@,
    }
}

/// What a policy says about one program and one resource: the decision on
/// record, or `Unknown` when there is none, which is what makes the service
/// ask.
pub open spec fn decision_guardada(
    p: Map<Seq<char>, VistaDeAplicacion>,
    ruta: Seq<char>,
    id: Seq<char>,
) -> Decision {
    if p.contains_key(ruta) && p[ruta].decisiones.contains_key(id) {
        p[ruta].decisiones[id]
    } else {
        Decision::Unknown
    }
}

/// A policy after recording `d` for the program at `ruta` and the resource
/// `id`: the program's name and provenance are refreshed, it keeps asking once
/// it has asked, and its other decisions stay as they were.
pub open spec fn anotada(
    p: Map<Seq<char>, VistaDeAplicacion>,
    ruta: Seq<char>,
    nombre: Seq<char>,
    procedencia: Provenance,
    id: Seq<char>,
    d: Decision,
    pregunto: bool,
) -> Map<Seq<char>, VistaDeAplicacion> {
    let previas = if p.contains_key(ruta) {
        p[ruta].decisiones
    } else {
        Map::empty()
    };
    let preguntaba = p.contains_key(ruta) && p[ruta].pregunta;
    p.insert(
        ruta,
        VistaDeAplicacion {
            nombre,
            procedencia,
            pregunta: preguntaba || pregunto,
            decisiones: previas.insert(id, d),
        },
    )
}

/// The decisions of the program at `ruta` that the settings screen shows: the
/// ones inside its declared scope.
pub open spec fn visibles(ruta: Seq<char>, d: Map<Seq<char>, Decision>) -> Map<
    Seq<char>,
    Decision,
> {
    Map::new(|id: Seq<char>| d.contains_key(id) && puede_pedir(ruta, id), |id: Seq<char>| d[id])
}

/// `e` is how the settings screen is shown the program at `ruta`.
pub open spec fn muestra(e: PermissionEntry, ruta: Seq<char>, v: VistaDeAplicacion) -> bool {
    &&& e.application.binary_path@ == ruta
    &&& e.application.display_name@ == v.nombre
    &&& e.application.provenance == v.procedencia
    &&& e.asks == v.pregunta
    &&& e.decisions.bien_formada()
    &&& e.decisions@ == visibles(ruta, v.decisiones)
}

/// Everything decided for one user, keyed by the program's executable path.
pub struct UserPolicy {
    applications: Tabla<StoredApplication>,
}

impl UserPolicy {
    /// The policy as a map from executable path to what is kept about it.
    pub closed spec fn view(&self) -> Map<Seq<char>, VistaDeAplicacion> {
        Map::new(
            |k: Seq<char>| self.applications@.contains_key(k),
            |k: Seq<char>| vista_de(self.applications@[k]),
        )
    }

    /// The executable paths, in the order the policy keeps them.
    pub closed spec fn rutas(&self) -> Seq<Seq<char>> {
        self.applications.claves()
    }

    pub closed spec fn bien_formada(&self) -> bool {
        &&& self.applications.bien_formada()
        &&& forall|k: Seq<char>| #[trigger]
            self.applications@.contains_key(k) ==> self.applications@[k].decisions.bien_formada()
    }

    /// The paths are the programs of the policy, each once, in increasing
    /// order.
    pub proof fn lema_rutas(&self)
        requires
            self.bien_formada(),
        ensures
            ordenadas(self.rutas()),
            self.rutas().no_duplicates(),
            forall|k: Seq<char>| #[trigger] self@.contains_key(k) <==> self.rutas().contains(k),
    {
        self.applications.lema_vista();
    }

    /// A policy in which nothing has been decided.
    pub fn vacia() -> (p: Self)
        ensures
            p.bien_formada(),
            p@ == Map::<Seq<char>, VistaDeAplicacion>::empty(),
    {
        let p = UserPolicy { applications: Tabla::nueva() };
        assert(p@ =~= Map::<Seq<char>, VistaDeAplicacion>::empty());
        p
    }

    /// What was decided for the program at `binary_path` and `resource_id`;
    /// `Unknown` when nothing was.
    pub fn decision(&self, binary_path: &str, resource_id: &str) -> (r: Decision)
        requires
            self.bien_formada(),
        ensures
            r == decision_guardada(self@, binary_path@, resource_id@),
    {
        match self.applications.obtener(binary_path) {
            None => Decision::Unknown,
            Some(app) => {
                assert(self.applications@.contains_key(binary_path@));
                match app.decisions.obtener(resource_id) {
                    Some(d) => *d,
                    None => Decision::Unknown,
                }
            },
        }
    }

    /// Records an answer, replacing whatever was decided before for the same
    /// program and resource.
    ///
    /// `pregunto` says where it came from: `true` when the program asked the
    /// service, `false` when what was seen was a block by the kernel. A
    /// program that asked once stays one that asks.
    pub fn record(
        &mut self,
        application: &Application,
        resource_id: &str,
        decision: Decision,
        pregunto: bool,
    )
        requires
            old(self).bien_formada(),
        ensures
            final(self).bien_formada(),
            final(self)@ == anotada(
                old(self)@,
                application.binary_path@,
                application.display_name@,
                application.provenance,
                resource_id@,
                decision,
                pregunto,
            ),
    {
        let ghost antes = self@;
        let ghost tabla_antes = self.applications@;
        let ruta = application.binary_path.clone();
        let previa = self.applications.quitar(application.binary_path.as_str());
        let mut entrada = match previa {
            Some(e) => e,
            None => StoredApplication {
                display_name: application.display_name.clone(),
                provenance: application.provenance,
                asks: false,
                decisions: Tabla::nueva(),
            },
        };
        proof {
            if tabla_antes.contains_key(ruta@) {
                assert(entrada.decisions.bien_formada());
                assert(entrada.decisions@ == antes[ruta@].decisiones);
                assert(entrada.asks == antes[ruta@].pregunta);
            } else {
                assert(!antes.contains_key(ruta@));
            }
        }
        let ghost decisiones_antes = entrada.decisions@;
        entrada.display_name = application.display_name.clone();
        entrada.provenance = application.provenance;
        entrada.asks = entrada.asks || pregunto;
        entrada.decisions.insertar(resource_id.to_owned(), decision);
        self.applications.insertar(ruta, entrada);
        proof {
            let despues = anotada(
                antes,
                application.binary_path@,
                application.display_name@,
                application.provenance,
                resource_id@,
                decision,
                pregunto,
            );
            assert(self.applications@ == tabla_antes.insert(ruta@, entrada));
            assert forall|k: Seq<char>| #[trigger]
                self.applications@.contains_key(k) implies self.applications@[k].decisions.bien_formada() by {
                if k != ruta@ {
                    assert(tabla_antes.contains_key(k));
                }
            }
            assert(self@ =~= despues);
        }
    }

    /// Forgets a program entirely, so the next request asks again. Says
    /// whether there was anything to forget.
    pub fn forget(&mut self, binary_path: &str) -> (r: bool)
        requires
            old(self).bien_formada(),
        ensures
            final(self).bien_formada(),
            final(self)@ == old(self)@.remove(binary_path@),
            r == old(self)@.contains_key(binary_path@),
    {
        let ghost tabla_antes = self.applications@;
        let ghost antes = self@;
        let r = self.applications.quitar(binary_path).is_some();
        proof {
            assert forall|k: Seq<char>| #[trigger]
                self.applications@.contains_key(k) implies self.applications@[k].decisions.bien_formada() by {
                assert(tabla_antes.contains_key(k));
            }
            assert(self@ =~= antes.remove(binary_path@));
        }
        r
    }

    /// What the settings screen shows: one entry per program, in path order,
    /// each with only the decisions inside the program's declared scope.
    ///
    /// Decisions outside the scope stay in the policy: `decide` refuses those
    /// resources without looking, so their switch would do nothing, but reading
    /// must not write, and if the scope grows they count again.
    pub fn entries(&self) -> (r: Vec<PermissionEntry>)
        requires
            self.bien_formada(),
        ensures
            r.len() == self.rutas().len(),
            forall|i: int|
                0 <= i < r.len() ==> muestra(#[trigger] r[i], self.rutas()[i], self@[self.rutas()[i]]),
    {
        proof {
            self.applications.lema_vista();
        }
        let mut r: Vec<PermissionEntry> = Vec::new();
        let n = self.applications.len();
        let mut i: usize = 0;
        while i < n
            invariant
                self.bien_formada(),
                n == self.rutas().len(),
                i <= n,
                r.len() == i,
                forall|j: int|
                    0 <= j < i ==> muestra(#[trigger] r[j], self.rutas()[j], self@[self.rutas()[j]]),
            decreases n - i,
        {
            proof {
                self.applications.lema_vista();
            }
            let (ruta, app) = self.applications.entrada(i);
            assert(self.applications@.contains_key(ruta@));
            let decisiones = visibles_de(ruta.as_str(), &app.decisions);
            let entrada = PermissionEntry {
                asks: app.asks,
                application: Application {
                    binary_path: ruta.clone(),
                    display_name: app.display_name.clone(),
                    provenance: app.provenance,
                },
                decisions: decisiones,
            };
            r.push(entrada);
            i = i + 1;
        }
        r
    }

    /// The stored programs, for writing the policy out.
    pub fn aplicaciones(&self) -> (r: &Tabla<StoredApplication>)
        requires
            self.bien_formada(),
        ensures
            r.bien_formada(),
            r.claves() == self.rutas(),
            forall|k: Seq<char>| #[trigger] r@.contains_key(k) ==> r@[k].decisions.bien_formada(),
            forall|k: Seq<char>| #[trigger] r@.contains_key(k) <==> self@.contains_key(k),
            forall|k: Seq<char>| #[trigger] r@.contains_key(k) ==> self@[k] == vista_de(r@[k]),
    {
        &self.applications
    }

    /// Puts back a program read from the policy file, as it was stored.
    pub fn reponer(&mut self, binary_path: String, stored: StoredApplication)
        requires
            old(self).bien_formada(),
            stored.decisions.bien_formada(),
        ensures
            final(self).bien_formada(),
            final(self)@ == old(self)@.insert(binary_path@, vista_de(stored)),
    {
        let ghost tabla_antes = self.applications@;
        let ghost antes = self@;
        let ghost k0 = binary_path@;
        let ghost v0 = vista_de(stored);
        self.applications.insertar(binary_path, stored);
        proof {
            assert forall|k: Seq<char>| #[trigger]
                self.applications@.contains_key(k) implies self.applications@[k].decisions.bien_formada() by {
                if k != k0 {
                    assert(tabla_antes.contains_key(k));
                }
            }
            assert(self@ =~= antes.insert(k0, v0));
        }
    }
}

impl Default for UserPolicy {
    fn default() -> (p: Self)
        ensures
            p.bien_formada(),
            p@ == Map::<Seq<char>, VistaDeAplicacion>::empty(),
    {
        UserPolicy::vacia()
    }
}

/// The decisions of `d` that the program at `ruta` may ask for, in the same
/// order.
fn visibles_de(ruta: &str, d: &Tabla<Decision>) -> (r: Tabla<Decision>)
    requires
        d.bien_formada(),
    ensures
        r.bien_formada(),
        r@ == visibles(ruta@, d@),
{
    proof {
        d.lema_vista();
    }
    let mut r: Tabla<Decision> = Tabla::nueva();
    proof {
        r.lema_vista();
    }
    let n = d.len();
    let mut i: usize = 0;
    while i < n
        invariant
            d.bien_formada(),
            n == d.claves().len(),
            i <= n,
            r.bien_formada(),
            forall|j: int|
                0 <= j < r.claves().len() ==> exists|m: int|
                    0 <= m < i && #[trigger] r.claves()[j] == d.claves()[m],
            forall|k: Seq<char>| #[trigger]
                r@.contains_key(k) <==> (exists|m: int|
                    0 <= m < i && d.claves()[m] == k && puede_pedir(ruta@, k)),
            forall|k: Seq<char>| #[trigger] r@.contains_key(k) ==> r@[k] == d@[k],
        decreases n - i,
    {
        proof {
            d.lema_vista();
        }
        let (id, valor) = d.entrada(i);
        if may_request(ruta, id.as_str()) {
            proof {
                assert forall|j: int| 0 <= j < r.claves().len() implies menor(
                    #[trigger] r.claves()[j],
                    id@,
                ) by {
                    let m = choose|m: int| 0 <= m < i && r.claves()[j] == d.claves()[m];
                    assert(menor(d.claves()[m], d.claves()[i as int]));
                }
            }
            let ghost r_antes = r@;
            let ghost claves_antes = r.claves();
            r.agregar_al_final(id.clone(), *valor);
            proof {
                assert(d@[d.claves()[i as int]] == d.valores()[i as int]);
                assert forall|j: int| 0 <= j < r.claves().len() implies exists|m: int|
                    0 <= m < i + 1 && #[trigger] r.claves()[j] == d.claves()[m] by {
                    if j < claves_antes.len() {
                        assert(r.claves()[j] == claves_antes[j]);
                        let m = choose|m: int| 0 <= m < i && claves_antes[j] == d.claves()[m];
                        assert(0 <= m < i + 1 && r.claves()[j] == d.claves()[m]);
                    } else {
                        assert(r.claves()[j] == d.claves()[i as int]);
                    }
                }
                assert forall|k: Seq<char>| #[trigger] r@.contains_key(k) implies (exists|m: int|
                    0 <= m < i + 1 && d.claves()[m] == k && puede_pedir(ruta@, k)) by {
                    if k != id@ {
                        assert(r_antes.contains_key(k));
                    } else {
                        assert(d.claves()[i as int] == k);
                    }
                }
                assert forall|k: Seq<char>|
                    (exists|m: int| 0 <= m < i + 1 && d.claves()[m] == k && puede_pedir(ruta@, k))
                        implies #[trigger] r@.contains_key(k) by {
                    let m = choose|m: int| 0 <= m < i + 1 && d.claves()[m] == k && puede_pedir(ruta@, k);
                    if m < i {
                        assert(r_antes.contains_key(k));
                    }
                }
            }
        } else {
            proof {
                assert forall|k: Seq<char>|
                    (exists|m: int| 0 <= m < i + 1 && d.claves()[m] == k && puede_pedir(ruta@, k))
                        implies #[trigger] r@.contains_key(k) by {
                    let m = choose|m: int| 0 <= m < i + 1 && d.claves()[m] == k && puede_pedir(ruta@, k);
                    if m == i {
                        assert(false);
                    }
                }
                assert forall|j: int| 0 <= j < r.claves().len() implies exists|m: int|
                    0 <= m < i + 1 && #[trigger] r.claves()[j] == d.claves()[m] by {
                    let m = choose|m: int| 0 <= m < i && r.claves()[j] == d.claves()[m];
                    assert(0 <= m < i + 1 && r.claves()[j] == d.claves()[m]);
                }
            }
        }
        i = i + 1;
    }
    proof {
        assert forall|k: Seq<char>| #[trigger] r@.contains_key(k) <==> visibles(ruta@, d@).contains_key(
            k,
        ) by {
            if d@.contains_key(k) {
                let m = d.claves().index_of(k);
                assert(d.claves()[m] == k);
            }
        }
        assert(r@ =~= visibles(ruta@, d@));
    }
    r
}

/// `nombre` inside the directory `dir`, as `Path::join` puts it there: with a
/// `/` between them unless `dir` is empty or already ends in one.
pub open spec fn unir(dir: Seq<char>, nombre: Seq<char>) -> Seq<char> {
    if dir.len() == 0 {
        nombre
    } else if dir.last() == '/' {
        dir + nombre
    } else {
        dir + seq!['/'] + nombre
    }
}

/// The file that holds the policy of user `uid`: `<uid>.json` in `dir`.
pub open spec fn archivo_de_politica(dir: Seq<char>, uid: u32) -> Seq<char> {
    unir(dir, decimal(uid as nat) + ".json"@)
}

/// Where the per-user policy files are kept.
#[derive(Clone)]
pub struct PolicyStore {
    directory: String,
}

impl PolicyStore {
    pub closed spec fn directorio(&self) -> Seq<char> {
        self.directory@
    }

    /// The store in its real, root-owned place.
    pub fn new() -> (s: Self)
        ensures
            s.directorio() == POLICY_DIR@,
    {
        PolicyStore { directory: POLICY_DIR.to_owned() }
    }

    /// The store of a released build: always the real place. Nothing in the
    /// environment can point the service at a directory somebody else can
    /// write.
    pub fn from_environment() -> (s: Self)
        ensures
            s.directorio() == POLICY_DIR@,
    {
        Self::new()
    }

    /// A store kept in `directory`.
    pub fn at(directory: String) -> (s: Self)
        ensures
            s.directorio() == directory@,
    {
        PolicyStore { directory }
    }

    pub fn directory(&self) -> (r: &str)
        ensures
            r@ == self.directorio(),
    {
        self.directory.as_str()
    }

    /// The file that holds the policy of `uid`.
    pub fn path_for(&self, uid: u32) -> (r: String)
        ensures
            r@ == archivo_de_politica(self.directorio(), uid),
    {
        let mut v = caracteres(self.directory.as_str());
        let ghost dir = v@;
        if v.len() > 0 && v[v.len() - 1] != '/' {
            v.push('/');
        }
        let ghost prefijo = v@;
        let numero = en_decimal(uid as u64);
        anexar(&mut v, numero.as_slice());
        let extension = caracteres(".json");
        anexar(&mut v, extension.as_slice());
        proof {
            let nombre = decimal(uid as nat) + ".json"@;
            assert(v@ =~= prefijo + nombre);
            if dir.len() == 0 {
                assert(prefijo =~= Seq::<char>::empty());
            }
        }
        cadena(v.as_slice())
    }
}

/// What is recorded is what is read back: after recording `d` for a program
/// and a resource, the policy answers `d` for that program and resource.
pub proof fn lo_anotado_es_lo_que_se_lee(
    p: Map<Seq<char>, VistaDeAplicacion>,
    ruta: Seq<char>,
    nombre: Seq<char>,
    procedencia: Provenance,
    id: Seq<char>,
    d: Decision,
    pregunto: bool,
)
    ensures
        decision_guardada(anotada(p, ruta, nombre, procedencia, id, d, pregunto), ruta, id) == d,
        anotada(p, ruta, nombre, procedencia, id, d, pregunto).dom() == p.dom().insert(ruta),
{
    assert(anotada(p, ruta, nombre, procedencia, id, d, pregunto).dom() =~= p.dom().insert(ruta));
}

/// Resources are decided one at a time: recording an answer for one program
/// and one resource leaves what the policy says about every other pair as it
/// was.
pub proof fn anotar_no_toca_lo_demas(
    p: Map<Seq<char>, VistaDeAplicacion>,
    ruta: Seq<char>,
    nombre: Seq<char>,
    procedencia: Provenance,
    id: Seq<char>,
    d: Decision,
    pregunto: bool,
    otra_ruta: Seq<char>,
    otro_id: Seq<char>,
)
    requires
        otra_ruta != ruta || otro_id != id,
    ensures
        decision_guardada(anotada(p, ruta, nombre, procedencia, id, d, pregunto), otra_ruta, otro_id)
            == decision_guardada(p, otra_ruta, otro_id),
{
}

/// A program that asked once stays one that asks: setting its decision from
/// the settings screen afterwards does not turn it into something else. And
/// a program that asked now is one that asks.
pub proof fn quien_pregunta_sigue_preguntando(
    p: Map<Seq<char>, VistaDeAplicacion>,
    ruta: Seq<char>,
    nombre: Seq<char>,
    procedencia: Provenance,
    id: Seq<char>,
    d: Decision,
    pregunto: bool,
)
    ensures
        anotada(p, ruta, nombre, procedencia, id, d, pregunto)[ruta].pregunta == ((p.contains_key(
            ruta,
        ) && p[ruta].pregunta) || pregunto),
{
}

/// Forgetting a program makes it ask again: nothing is decided for it any
/// more, whatever the resource.
pub proof fn olvidar_hace_volver_a_preguntar(
    p: Map<Seq<char>, VistaDeAplicacion>,
    ruta: Seq<char>,
    id: Seq<char>,
)
    ensures
        decision_guardada(p.remove(ruta), ruta, id) == Decision::Unknown,
{
}

/// A program nobody decided on is `Unknown`, not `Denied`: unknown is what
/// makes the service ask.
pub proof fn sin_decidir_es_desconocido(ruta: Seq<char>, id: Seq<char>)
    ensures
        decision_guardada(Map::<Seq<char>, VistaDeAplicacion>::empty(), ruta, id)
            == Decision::Unknown,
{
}

/// The settings screen never shows a decision outside the program's declared
/// scope, and shows every one inside it as it was decided.
pub proof fn la_pantalla_muestra_solo_el_alcance(
    ruta: Seq<char>,
    d: Map<Seq<char>, Decision>,
    id: Seq<char>,
)
    ensures
        !puede_pedir(ruta, id) ==> !visibles(ruta, d).contains_key(id),
        puede_pedir(ruta, id) && d.contains_key(id) ==> visibles(ruta, d).contains_key(id)
            && visibles(ruta, d)[id] == d[id],
{
}

/// Users do not share a policy: two users never have the same policy file.
pub proof fn cada_usuario_tiene_su_archivo(dir: Seq<char>, a: u32, b: u32)
    requires
        a != b,
    ensures
        archivo_de_politica(dir, a) != archivo_de_politica(dir, b),
{
    let da = decimal(a as nat);
    let db = decimal(b as nat);
    let xa = da + ".json"@;
    let xb = db + ".json"@;
    let pre = if dir.len() == 0 {
        Seq::<char>::empty()
    } else if dir.last() == '/' {
        dir
    } else {
        dir + seq!['/']
    };
    assert(unir(dir, xa) =~= pre + xa);
    assert(unir(dir, xb) =~= pre + xb);
    if archivo_de_politica(dir, a) == archivo_de_politica(dir, b) {
        assert(xa =~= (pre + xa).subrange(pre.len() as int, (pre + xa).len() as int));
        assert(xb =~= (pre + xb).subrange(pre.len() as int, (pre + xb).len() as int));
        assert(xa == xb);
        assert(da.len() == db.len());
        assert(da =~= xa.subrange(0, da.len() as int));
        assert(db =~= xb.subrange(0, db.len() as int));
        lema_decimal_inyectivo(a as nat, b as nat);
    }
}

} // verus!
