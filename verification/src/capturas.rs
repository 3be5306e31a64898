//! What is being captured right now, so it can be shown and cut off.
//!
//! The capture dialog promises an indicator in the panel, "you can stop
//! sharing at any moment from the indicator", and the agent knows the live
//! sessions: it exports one per capture and knows how to close them. This is
//! the record of which are live. A capture is recorded at `Start` and not at
//! `SelectSources`: granting is not capturing, and announcing that somebody is
//! watching while the monitor picker is still open would teach people not to
//! believe the indicator.
use vstd::prelude::*;
use crate::tabla::Tabla;

verus! {

/// The live captures, keyed by the portal's session path. The session is the
/// portal's own identifier on purpose: it is what has to be sent back to close
/// it, so whoever reads the list can cut one off without translating anything.
pub struct Registro {
    vivas: Tabla<String>,
}

impl Registro {
    /// Each live session and the application capturing through it.
    pub closed spec fn view(&self) -> Map<Seq<char>, Seq<char>> {
        Map::new(|s: Seq<char>| self.vivas@.contains_key(s), |s: Seq<char>| self.vivas@[s]@)
    }

    /// The sessions, in the order they are listed.
    pub closed spec fn sesiones(&self) -> Seq<Seq<char>> {
        self.vivas.claves()
    }

    pub closed spec fn bien_formado(&self) -> bool {
        self.vivas.bien_formada()
    }

    /// A record with nothing live.
    pub fn nuevo() -> (r: Self)
        ensures
            r.bien_formado(),
            r@ == Map::<Seq<char>, Seq<char>>::empty(),
    {
        let r = Registro { vivas: Tabla::nueva() };
        assert(r@ =~= Map::<Seq<char>, Seq<char>>::empty());
        r
    }

    /// Records a capture that has just started.
    pub fn sumar(&mut self, sesion: &str, app_id: &str)
        requires
            old(self).bien_formado(),
        ensures
            final(self).bien_formado(),
            final(self)@ == old(self)@.insert(sesion@, app_id@),
    {
        let ghost antes = self@;
        self.vivas.insertar(sesion.to_owned(), app_id.to_owned());
        assert(self@ =~= antes.insert(sesion@, app_id@));
    }

    /// Takes out a capture that ended, and says whether there was one to take
    /// out. Closing the same session twice must not announce a change twice:
    /// the announcement hangs on this answer.
    pub fn sacar(&mut self, sesion: &str) -> (r: bool)
        requires
            old(self).bien_formado(),
        ensures
            final(self).bien_formado(),
            r == old(self)@.contains_key(sesion@),
            final(self)@ == old(self)@.remove(sesion@),
    {
        let ghost antes = self@;
        let r = self.vivas.quitar(sesion).is_some();
        assert(self@ =~= antes.remove(sesion@));
        r
    }

    /// What is live, as (session, application) pairs, every one of them and
    /// each once: two applications capturing at once is the case the
    /// indicator has to show whole.
    pub fn vivas(&self) -> (r: Vec<(String, String)>)
        requires
            self.bien_formado(),
        ensures
            r@.len() == self@.dom().len(),
            r@.len() == self.sesiones().len(),
            forall|i: int|
                #![trigger r@[i]]
                0 <= i < r@.len() ==> r@[i].0@ == self.sesiones()[i] && self@.contains_key(r@[i].0@)
                    && r@[i].1@ == self@[r@[i].0@],
            forall|s: Seq<char>|
                #[trigger] self@.contains_key(s) ==> exists|i: int| 0 <= i < r@.len() && r@[i].0@ == s,
    {
        proof {
            self.vivas.lema_vista();
        }
        let n = self.vivas.len();
        let mut r: Vec<(String, String)> = Vec::new();
        let mut i: usize = 0;
        while i < n
            invariant
                self.bien_formado(),
                n == self.sesiones().len(),
                i <= n,
                r@.len() == i,
                forall|j: int|
                    #![trigger r@[j]]
                    0 <= j < i ==> r@[j].0@ == self.sesiones()[j] && self@.contains_key(r@[j].0@)
                        && r@[j].1@ == self@[r@[j].0@],
            decreases n - i,
        {
            proof {
                self.vivas.lema_vista();
            }
            let (sesion, app) = self.vivas.entrada(i);
            assert(self.vivas@.contains_key(sesion@));
            assert(self.vivas@[self.vivas.claves()[i as int]] == self.vivas.valores()[i as int]);
            let ghost previo = r@;
            r.push((sesion.clone(), app.clone()));
            assert forall|j: int| #![trigger r@[j]] 0 <= j < i + 1 implies r@[j].0@ == self.sesiones()[j]
                && self@.contains_key(r@[j].0@) && r@[j].1@ == self@[r@[j].0@] by {
                if j < i {
                    assert(r@[j] == previo[j]);
                    assert(previo[j].0@ == self.sesiones()[j]);
                }
            }
            i = i + 1;
        }
        proof {
            self.vivas.lema_vista();
            assert(self@.dom() =~= self.vivas@.dom());
            assert forall|s: Seq<char>| #[trigger] self@.contains_key(s) implies exists|i: int|
                0 <= i < r@.len() && r@[i].0@ == s by {
                assert(self.vivas@.contains_key(s));
                assert(self.sesiones().contains(s));
                let k = self.sesiones().index_of(s);
                assert(0 <= k < r@.len() && self.sesiones()[k] == s);
                assert(r@[k].0@ == s);
            }
        }
        r
    }
}

} // verus!
