//! A ceiling on how often a person can be asked something.
//!
//! A stored refusal already stops one program from asking about one thing
//! twice. What it does not stop is volume. Somebody who is shown dialogs
//! faster than they can read them stops reading them, which turns every later
//! question into a reflex click, so the ceiling protects the meaning of the
//! answers, not just the screen.
//!
//! Times are milliseconds on a clock that only goes forward, read by the
//! caller.
use vstd::prelude::*;
use std::collections::HashMap;
use crate::texto::{caracteres, iguales};

verus! {

broadcast use vstd::std_specs::hash::group_hash_axioms;

/// How many questions one person may be asked in `WINDOW`.
///
/// Generous for anything legitimate: an application asks about a resource
/// once in its life, and even a first run that needs camera, microphone and
/// screen stays well inside it.
pub const LIMIT: usize = 5;

/// The length of the sliding window, in milliseconds: one minute.
pub const WINDOW: u64 = 60_000;

/// How long ago `desde` was, seen at `ahora`; never negative, as
/// `Instant::duration_since` saturates.
pub open spec fn transcurrido(ahora: u64, desde: u64) -> int {
    if ahora >= desde {
        ahora - desde
    } else {
        0
    }
}

/// The questions among `s` that still count at `ahora`, oldest first.
pub open spec fn recientes(s: Seq<u64>, ahora: u64) -> Seq<u64> {
    s.filter(|t: u64| transcurrido(ahora, t) < WINDOW)
}

/// The questions shown to `uid`, oldest first.
pub open spec fn mostradas(m: Map<u32, Seq<u64>>, uid: u32) -> Seq<u64> {
    if m.contains_key(uid) {
        m[uid]
    } else {
        Seq::empty()
    }
}

/// Whether `uid` may be asked at `ahora`, and the throttle afterwards: the
/// questions that no longer count are dropped, and the new one is counted
/// when it is let through.
pub open spec fn tras_permitir(m: Map<u32, Seq<u64>>, uid: u32, ahora: u64) -> (bool, Map<
    u32,
    Seq<u64>,
>) {
    let r = recientes(mostradas(m, uid), ahora);
    if r.len() < LIMIT {
        (true, m.insert(uid, r.push(ahora)))
    } else {
        (false, m.insert(uid, r))
    }
}

/// The throttle after giving back the last question counted for `uid`.
pub open spec fn tras_devolver(m: Map<u32, Seq<u64>>, uid: u32) -> Map<u32, Seq<u64>> {
    if m.contains_key(uid) && m[uid].len() > 0 {
        m.insert(uid, m[uid].drop_last())
    } else {
        m
    }
}

pub struct PromptThrottle {
    /// When each recent prompt was shown, per user, oldest first.
    recent: HashMap<u32, Vec<u64>>,
}

impl PromptThrottle {
    pub closed spec fn view(&self) -> Map<u32, Seq<u64>> {
        Map::new(|u: u32| self.recent@.contains_key(u), |u: u32| self.recent@[u]@)
    }

    /// A throttle that has counted nothing.
    pub fn new() -> (t: Self)
        ensures
            t@ == Map::<u32, Seq<u64>>::empty(),
    {
        let t = PromptThrottle { recent: HashMap::new() };
        assert(t@ =~= Map::<u32, Seq<u64>>::empty());
        t
    }

    /// Records that a question is about to be asked, or refuses to let it be.
    ///
    /// Returns `false` when the ceiling is reached. The caller must treat that
    /// as "could not ask" rather than as a refusal from the user: remembering
    /// it would let a burst of noise permanently deny a program the person
    /// never even saw a dialog for.
    pub fn allow(&mut self, uid: u32, now: u64) -> (r: bool)
        ensures
            (r, final(self)@) == tras_permitir(old(self)@, uid, now),
    {
        let ghost antes = self@;
        let previas = match self.recent.remove(&uid) {
            Some(v) => v,
            None => Vec::new(),
        };
        assert(previas@ == mostradas(antes, uid));
        let mut recientes_: Vec<u64> = Vec::new();
        let mut i: usize = 0;
        while i < previas.len()
            invariant
                i <= previas.len(),
                recientes_@ == recientes(previas@.take(i as int), now),
            decreases previas.len() - i,
        {
            let shown = previas[i];
            let transcurrido_: u64 = if now >= shown {
                now - shown
            } else {
                0
            };
            proof {
                let s = previas@.take(i + 1);
                assert(s.drop_last() =~= previas@.take(i as int));
                assert(s.last() == shown);
                reveal(Seq::filter);
            }
            if transcurrido_ < WINDOW {
                recientes_.push(shown);
            }
            i = i + 1;
        }
        assert(previas@.take(previas.len() as int) =~= previas@);
        let r = if recientes_.len() >= LIMIT {
            false
        } else {
            recientes_.push(now);
            true
        };
        self.recent.insert(uid, recientes_);
        assert(self@ =~= tras_permitir(antes, uid, now).1);
        r
    }

    /// Gives back a reserved slot because no dialog was actually shown.
    ///
    /// Without this, a program hammering during login, before the agent has
    /// started and so while nothing can be displayed, would use up the
    /// allowance, and the first question that could genuinely have been asked
    /// would be turned away instead.
    pub fn refund(&mut self, uid: u32)
        ensures
            final(self)@ == tras_devolver(old(self)@, uid),
    {
        let ghost antes = self@;
        match self.recent.remove(&uid) {
            Some(mut v) => {
                v.pop();
                self.recent.insert(uid, v);
                assert(self@ =~= tras_devolver(antes, uid));
            },
            None => {
                assert(self@ =~= antes);
            },
        }
    }
}

impl Default for PromptThrottle {
    fn default() -> (t: Self)
        ensures
            t@ == Map::<u32, Seq<u64>>::empty(),
    {
        PromptThrottle::new()
    }
}

/// Never more than `LIMIT` questions count for one person at a time: a
/// throttle whose lists are within the ceiling stays within it, whatever is
/// let through or given back.
pub proof fn el_techo_se_sostiene(m: Map<u32, Seq<u64>>, uid: u32, ahora: u64, otro: u32)
    requires
        forall|u: u32| #[trigger] m.contains_key(u) ==> m[u].len() <= LIMIT,
    ensures
        tras_permitir(m, uid, ahora).1.contains_key(otro) ==> tras_permitir(m, uid, ahora).1[otro].len()
            <= LIMIT,
        tras_devolver(m, uid).contains_key(otro) ==> tras_devolver(m, uid)[otro].len() <= LIMIT,
{
    mostradas(m, uid).lemma_filter_len(|t: u64| transcurrido(ahora, t) < WINDOW);
}

/// A flood is stopped: when `LIMIT` questions still count, the next one is
/// refused, and nothing new is counted for it.
pub proof fn una_andanada_se_detiene(m: Map<u32, Seq<u64>>, uid: u32, ahora: u64)
    requires
        recientes(mostradas(m, uid), ahora).len() >= LIMIT,
    ensures
        !tras_permitir(m, uid, ahora).0,
        mostradas(tras_permitir(m, uid, ahora).1, uid).len() == recientes(
            mostradas(m, uid),
            ahora,
        ).len(),
{
}

/// The window slides: once every question shown to a person is a full window
/// old, the next one goes through.
pub proof fn pasada_la_ventana_se_vuelve_a_preguntar(m: Map<u32, Seq<u64>>, uid: u32, ahora: u64)
    requires
        forall|i: int|
            0 <= i < mostradas(m, uid).len() ==> transcurrido(ahora, #[trigger] mostradas(m, uid)[i])
                >= WINDOW,
    ensures
        tras_permitir(m, uid, ahora).0,
{
    let s = mostradas(m, uid);
    let p = |t: u64| transcurrido(ahora, t) < WINDOW;
    let r = s.filter(p);
    if r.len() > 0 {
        s.lemma_filter_pred(p, 0);
        assert(r.contains(r[0]));
        s.lemma_filter_contains_rev(p, r[0]);
        let i = choose|i: int| 0 <= i < s.len() && s[i] == r[0];
        assert(transcurrido(ahora, s[i]) >= WINDOW);
    }
}

/// One person being flooded does not silence another: asking or giving back
/// for one user leaves what counts for every other user as it was.
pub proof fn cada_persona_tiene_su_cupo(m: Map<u32, Seq<u64>>, uid: u32, ahora: u64, otro: u32)
    requires
        otro != uid,
    ensures
        mostradas(tras_permitir(m, uid, ahora).1, otro) == mostradas(m, otro),
        mostradas(tras_devolver(m, uid), otro) == mostradas(m, otro),
{
}

/// A question that was let through and then given back spends nothing: the
/// throttle is left as if it had only been looked at.
pub proof fn devolver_deshace_lo_permitido(m: Map<u32, Seq<u64>>, uid: u32, ahora: u64)
    requires
        tras_permitir(m, uid, ahora).0,
    ensures
        tras_devolver(tras_permitir(m, uid, ahora).1, uid) == m.insert(
            uid,
            recientes(mostradas(m, uid), ahora),
        ),
{
    let r = recientes(mostradas(m, uid), ahora);
    assert(r.push(ahora).drop_last() =~= r);
}

/// How long a repeated notice about the same program and resource stays
/// quiet, in milliseconds: five minutes. A program refused the camera often
/// retries in a loop, and without this one failed attempt becomes a shower of
/// notifications.
pub const SILENCIO: u64 = 300_000;

/// The key of a notice: the user, the program's path and the resource id.
pub open spec fn clave_de(e: (u32, String, String, u64)) -> (u32, Seq<char>, Seq<char>) {
    (e.0, e.1@, e.2@)
}

/// No key appears twice.
pub open spec fn unicas(v: Seq<(u32, String, String, u64)>) -> bool {
    forall|i: int, j: int|
        0 <= i < v.len() && 0 <= j < v.len() && i != j ==> clave_de(#[trigger] v[i]) != clave_de(#[trigger] v[j])
}

/// The remembered notices as a map from key to when it was given.
pub open spec fn mapa_de(v: Seq<(u32, String, String, u64)>) -> Map<(u32, Seq<char>, Seq<char>), u64> {
    Map::new(
        |k: (u32, Seq<char>, Seq<char>)| exists|i: int| 0 <= i < v.len() && clave_de(#[trigger] v[i]) == k,
        |k: (u32, Seq<char>, Seq<char>)| v[choose|i: int| 0 <= i < v.len() && clave_de(#[trigger] v[i]) == k].3,
    )
}

proof fn lema_mapa_entrada(v: Seq<(u32, String, String, u64)>, i: int)
    requires
        unicas(v),
        0 <= i < v.len(),
    ensures
        mapa_de(v).contains_key(clave_de(v[i])),
        mapa_de(v)[clave_de(v[i])] == v[i].3,
{
    let k = clave_de(v[i]);
    assert(mapa_de(v).contains_key(k));
    let c = choose|c: int| 0 <= c < v.len() && clave_de(#[trigger] v[c]) == k;
    if c != i {
        assert(clave_de(v[c]) != clave_de(v[i]));
    }
}

proof fn lema_mapa_push(v: Seq<(u32, String, String, u64)>, e: (u32, String, String, u64))
    requires
        unicas(v),
        !mapa_de(v).contains_key(clave_de(e)),
    ensures
        unicas(v.push(e)),
        mapa_de(v.push(e)) == mapa_de(v).insert(clave_de(e), e.3),
{
    let w = v.push(e);
    assert forall|i: int, j: int|
        0 <= i < w.len() && 0 <= j < w.len() && i != j implies clave_de(#[trigger] w[i]) != clave_de(
            #[trigger] w[j],
        ) by {
        if i == v.len() {
            assert(w[j] == v[j]);
            if clave_de(v[j]) == clave_de(e) {
                assert(mapa_de(v).contains_key(clave_de(e)));
            }
        } else if j == v.len() {
            assert(w[i] == v[i]);
            if clave_de(v[i]) == clave_de(e) {
                assert(mapa_de(v).contains_key(clave_de(e)));
            }
        } else {
            assert(w[i] == v[i] && w[j] == v[j]);
        }
    }
    assert forall|k: (u32, Seq<char>, Seq<char>)| #[trigger] mapa_de(w).contains_key(k) == mapa_de(v).insert(
        clave_de(e),
        e.3,
    ).contains_key(k) by {
        if mapa_de(w).contains_key(k) {
            let i = choose|i: int| 0 <= i < w.len() && clave_de(#[trigger] w[i]) == k;
            if i < v.len() {
                assert(w[i] == v[i]);
                assert(mapa_de(v).contains_key(k));
            }
        }
        if mapa_de(v).contains_key(k) {
            let i = choose|i: int| 0 <= i < v.len() && clave_de(#[trigger] v[i]) == k;
            assert(w[i] == v[i]);
            assert(mapa_de(w).contains_key(k));
        }
        if k == clave_de(e) {
            assert(w[v.len() as int] == e);
            assert(mapa_de(w).contains_key(k));
        }
    }
    assert forall|k: (u32, Seq<char>, Seq<char>)| #[trigger] mapa_de(w).contains_key(k) implies mapa_de(w)[k]
        == mapa_de(v).insert(clave_de(e), e.3)[k] by {
        let i = choose|i: int| 0 <= i < w.len() && clave_de(#[trigger] w[i]) == k;
        lema_mapa_entrada(w, i);
        if i < v.len() {
            assert(w[i] == v[i]);
            lema_mapa_entrada(v, i);
        } else {
            assert(w[i] == e);
        }
    }
    assert(mapa_de(w) =~= mapa_de(v).insert(clave_de(e), e.3));
}

/// The notices of `m` still keeping quiet at `ahora`, without the one for
/// `k`.
pub open spec fn otras_vigentes(
    m: Map<(u32, Seq<char>, Seq<char>), u64>,
    k: (u32, Seq<char>, Seq<char>),
    ahora: u64,
) -> Map<(u32, Seq<char>, Seq<char>), u64> {
    Map::new(
        |x: (u32, Seq<char>, Seq<char>)| m.contains_key(x) && x != k && transcurrido(ahora, m[x]) < SILENCIO,
        |x: (u32, Seq<char>, Seq<char>)| m[x],
    )
}

/// Whether to tell `uid` about the program at `ruta` and the resource `id` at
/// `ahora`, and what is remembered afterwards. A notice given less than
/// `SILENCIO` ago keeps it quiet and changes nothing; otherwise it is told,
/// the moment is remembered, and what no longer keeps anything quiet is
/// dropped, so the memory does not grow without bound in a long session. The
/// user is part of the key: keeping one person quiet never keeps another.
pub open spec fn tras_avisar(
    m: Map<(u32, Seq<char>, Seq<char>), u64>,
    uid: u32,
    ruta: Seq<char>,
    id: Seq<char>,
    ahora: u64,
) -> (bool, Map<(u32, Seq<char>, Seq<char>), u64>) {
    let k = (uid, ruta, id);
    if m.contains_key(k) && transcurrido(ahora, m[k]) < SILENCIO {
        (false, m)
    } else {
        (true, otras_vigentes(m, k, ahora).insert(k, ahora))
    }
}

/// How often the same block is told about.
pub struct NoticeThrottle {
    recent: Vec<(u32, String, String, u64)>,
}

impl NoticeThrottle {
    /// When each notice was last given, by user, program and resource.
    pub closed spec fn view(&self) -> Map<(u32, Seq<char>, Seq<char>), u64> {
        mapa_de(self.recent@)
    }

    pub closed spec fn bien_formado(&self) -> bool {
        unicas(self.recent@)
    }

    pub fn new() -> (t: Self)
        ensures
            t.bien_formado(),
            t@ == Map::<(u32, Seq<char>, Seq<char>), u64>::empty(),
    {
        let t = NoticeThrottle { recent: Vec::new() };
        assert(t@ =~= Map::<(u32, Seq<char>, Seq<char>), u64>::empty());
        t
    }

    /// Where the notice for this key is remembered, if it is.
    fn buscar(&self, uid: u32, ruta: &[char], id: &[char]) -> (r: Option<usize>)
        requires
            unicas(self.recent@),
        ensures
            match r {
                Some(i) => i < self.recent@.len() && clave_de(self.recent@[i as int]) == (uid, ruta@, id@),
                None => !mapa_de(self.recent@).contains_key((uid, ruta@, id@)),
            },
    {
        let mut i: usize = 0;
        while i < self.recent.len()
            invariant
                i <= self.recent@.len(),
                forall|j: int| 0 <= j < i ==> clave_de(#[trigger] self.recent@[j]) != (uid, ruta@, id@),
            decreases self.recent@.len() - i,
        {
            let e = &self.recent[i];
            if e.0 == uid && iguales(caracteres(e.1.as_str()).as_slice(), ruta) && iguales(
                caracteres(e.2.as_str()).as_slice(),
                id,
            ) {
                return Some(i);
            }
            i = i + 1;
        }
        None
    }

    /// Whether a block of `resource_id` for the program at `binary_path` is
    /// told to `uid` at `now`, remembering it when it is.
    pub fn should_notify(&mut self, uid: u32, binary_path: &str, resource_id: &str, now: u64) -> (r: bool)
        requires
            old(self).bien_formado(),
        ensures
            final(self).bien_formado(),
            (r, final(self)@) == tras_avisar(old(self)@, uid, binary_path@, resource_id@, now),
    {
        let ghost antes = self@;
        let ghost k = (uid, binary_path@, resource_id@);
        let ruta = caracteres(binary_path);
        let id = caracteres(resource_id);
        match self.buscar(uid, ruta.as_slice(), id.as_slice()) {
            Some(i) => {
                let cuando = self.recent[i].3;
                let paso: u64 = if now >= cuando {
                    now - cuando
                } else {
                    0
                };
                proof {
                    lema_mapa_entrada(self.recent@, i as int);
                }
                if paso < SILENCIO {
                    return false;
                }
            },
            None => {},
        }
        let ghost objetivo = otras_vigentes(antes, k, now);
        let mut nuevas: Vec<(u32, String, String, u64)> = Vec::new();
        assert(mapa_de(nuevas@) =~= otras_vigentes(mapa_de(self.recent@.take(0)), k, now));
        let mut j: usize = 0;
        while j < self.recent.len()
            invariant
                unicas(self.recent@),
                j <= self.recent@.len(),
                antes == mapa_de(self.recent@),
                k == (uid, binary_path@, resource_id@),
                ruta@ == binary_path@,
                id@ == resource_id@,
                unicas(nuevas@),
                mapa_de(nuevas@) == otras_vigentes(mapa_de(self.recent@.take(j as int)), k, now),
            decreases self.recent@.len() - j,
        {
            let e = &self.recent[j];
            let misma = e.0 == uid && iguales(caracteres(e.1.as_str()).as_slice(), ruta.as_slice())
                && iguales(caracteres(e.2.as_str()).as_slice(), id.as_slice());
            let cuando = e.3;
            let paso: u64 = if now >= cuando {
                now - cuando
            } else {
                0
            };
            let ghost previo = self.recent@.take(j as int);
            proof {
                let siguiente = self.recent@.take(j + 1);
                assert(siguiente =~= previo.push(self.recent@[j as int]));
                assert(unicas(previo));
                if mapa_de(previo).contains_key(clave_de(self.recent@[j as int])) {
                    let c = choose|c: int| 0 <= c < previo.len() && clave_de(#[trigger] previo[c]) == clave_de(
                        self.recent@[j as int],
                    );
                    assert(previo[c] == self.recent@[c]);
                }
                lema_mapa_push(previo, self.recent@[j as int]);
            }
            if !misma && paso < SILENCIO {
                let ghost antes_de_poner = nuevas@;
                let copia = (e.0, e.1.clone(), e.2.clone(), e.3);
                assert(clave_de(copia) == clave_de(self.recent@[j as int]));
                nuevas.push(copia);
                proof {
                    lema_mapa_push(antes_de_poner, copia);
                    assert(mapa_de(nuevas@) =~= otras_vigentes(
                        mapa_de(self.recent@.take(j + 1)),
                        k,
                        now,
                    ));
                }
            } else {
                proof {
                    assert(mapa_de(nuevas@) =~= otras_vigentes(
                        mapa_de(self.recent@.take(j + 1)),
                        k,
                        now,
                    ));
                }
            }
            j = j + 1;
        }
        proof {
            assert(self.recent@.take(self.recent@.len() as int) =~= self.recent@);
            assert(!mapa_de(nuevas@).contains_key(k));
        }
        let ghost antes_de_poner = nuevas@;
        let nueva = (uid, binary_path.to_owned(), resource_id.to_owned(), now);
        nuevas.push(nueva);
        proof {
            lema_mapa_push(antes_de_poner, nueva);
        }
        self.recent = nuevas;
        true
    }
}

impl Default for NoticeThrottle {
    fn default() -> (t: Self)
        ensures
            t.bien_formado(),
            t@ == Map::<(u32, Seq<char>, Seq<char>), u64>::empty(),
    {
        NoticeThrottle::new()
    }
}

/// A notice is given at most once per `SILENCIO` for the same user, program
/// and resource: right after one is given, the same one is kept quiet until
/// the silence runs out.
pub proof fn un_aviso_no_se_repite_en_el_silencio(
    m: Map<(u32, Seq<char>, Seq<char>), u64>,
    uid: u32,
    ruta: Seq<char>,
    id: Seq<char>,
    ahora: u64,
    despues: u64,
)
    requires
        tras_avisar(m, uid, ruta, id, ahora).0,
        ahora <= despues,
        despues - ahora < SILENCIO,
    ensures
        !tras_avisar(tras_avisar(m, uid, ruta, id, ahora).1, uid, ruta, id, despues).0,
{
}

/// Keeping one person quiet never keeps another: whether `otro` is told
/// depends only on what was told to `otro`.
pub proof fn el_silencio_es_de_cada_persona(
    m: Map<(u32, Seq<char>, Seq<char>), u64>,
    uid: u32,
    ruta: Seq<char>,
    id: Seq<char>,
    ahora: u64,
    otro: u32,
    otra_ruta: Seq<char>,
    otro_id: Seq<char>,
)
    requires
        otro != uid,
    ensures
        tras_avisar(m, uid, ruta, id, ahora).1.contains_key((otro, otra_ruta, otro_id)) ==> m.contains_key(
            (otro, otra_ruta, otro_id),
        ) && tras_avisar(m, uid, ruta, id, ahora).1[(otro, otra_ruta, otro_id)] == m[(otro, otra_ruta, otro_id)],
{
}

/// What is remembered after a run of notices, each as (user, program,
/// resource, moment), in the order they came.
pub open spec fn tras_avisos(
    m: Map<(u32, Seq<char>, Seq<char>), u64>,
    avisos: Seq<(u32, Seq<char>, Seq<char>, u64)>,
) -> Map<(u32, Seq<char>, Seq<char>), u64>
    decreases avisos.len(),
{
    if avisos.len() == 0 {
        m
    } else {
        let a = avisos.last();
        tras_avisar(tras_avisos(m, avisos.drop_last()), a.0, a.1, a.2, a.3).1
    }
}

proof fn lema_el_silencio_se_conserva(
    m: Map<(u32, Seq<char>, Seq<char>), u64>,
    k: (u32, Seq<char>, Seq<char>),
    ahora: u64,
    despues: u64,
    avisos: Seq<(u32, Seq<char>, Seq<char>, u64)>,
)
    requires
        m.contains_key(k),
        m[k] == ahora,
        ahora <= despues,
        despues - ahora < SILENCIO,
        forall|i: int| 0 <= i < avisos.len() ==> ahora <= (#[trigger] avisos[i]).3 <= despues,
    ensures
        tras_avisos(m, avisos).contains_key(k),
        tras_avisos(m, avisos)[k] == ahora,
    decreases avisos.len(),
{
    if avisos.len() > 0 {
        let u = avisos.drop_last();
        assert forall|i: int| 0 <= i < u.len() implies ahora <= (#[trigger] u[i]).3 <= despues by {
            assert(u[i] == avisos[i]);
        }
        lema_el_silencio_se_conserva(m, k, ahora, despues, u);
        assert(avisos[avisos.len() - 1] == avisos.last());
    }
}

/// Whatever else is told in between, to this user or to others, about this
/// program or any other, a notice is given at most once per `SILENCIO` for the
/// same user, program and resource: once it has been told at `ahora`, every
/// later attempt up to `despues`, less than `SILENCIO` after, is kept quiet.
pub proof fn ningun_aviso_se_repite_en_el_silencio(
    m: Map<(u32, Seq<char>, Seq<char>), u64>,
    uid: u32,
    ruta: Seq<char>,
    id: Seq<char>,
    ahora: u64,
    avisos: Seq<(u32, Seq<char>, Seq<char>, u64)>,
    despues: u64,
)
    requires
        tras_avisar(m, uid, ruta, id, ahora).0,
        ahora <= despues,
        despues - ahora < SILENCIO,
        forall|i: int| 0 <= i < avisos.len() ==> ahora <= (#[trigger] avisos[i]).3 <= despues,
    ensures
        !tras_avisar(tras_avisos(tras_avisar(m, uid, ruta, id, ahora).1, avisos), uid, ruta, id, despues).0,
        forall|i: int|
            0 <= i < avisos.len() && (#[trigger] avisos[i]).0 == uid && avisos[i].1 == ruta && avisos[i].2
                == id ==> !tras_avisar(
                tras_avisos(tras_avisar(m, uid, ruta, id, ahora).1, avisos.take(i)),
                uid,
                ruta,
                id,
                avisos[i].3,
            ).0,
{
    let k = (uid, ruta, id);
    let m1 = tras_avisar(m, uid, ruta, id, ahora).1;
    assert(m1.contains_key(k) && m1[k] == ahora);
    lema_el_silencio_se_conserva(m1, k, ahora, despues, avisos);
    assert forall|i: int|
        0 <= i < avisos.len() && (#[trigger] avisos[i]).0 == uid && avisos[i].1 == ruta && avisos[i].2
            == id implies !tras_avisar(tras_avisos(m1, avisos.take(i)), uid, ruta, id, avisos[i].3).0 by {
        let t = avisos.take(i);
        assert forall|j: int| 0 <= j < t.len() implies ahora <= (#[trigger] t[j]).3 <= despues by {
            assert(t[j] == avisos[j]);
        }
        lema_el_silencio_se_conserva(m1, k, ahora, despues, t);
    }
}

} // verus!
