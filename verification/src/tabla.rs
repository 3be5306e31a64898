//! A table keyed by text and kept in key order, which is what the stored
//! policy is made of: programs by executable path, decisions by resource id.
//!
//! Keys are ordered as a `BTreeMap<String, _>` orders them. `String` compares
//! its UTF-8 bytes, and UTF-8 keeps the order of code points, so comparing the
//! characters one by one gives the same order.
use vstd::prelude::*;
use crate::texto::caracteres;

verus! {

/// Lexicographic order on texts, character by character.
pub open spec fn menor(a: Seq<char>, b: Seq<char>) -> bool
    decreases a.len(),
{
    if a.len() == 0 {
        b.len() > 0
    } else if b.len() == 0 {
        false
    } else if a[0] < b[0] {
        true
    } else if a[0] > b[0] {
        false
    } else {
        menor(a.drop_first(), b.drop_first())
    }
}

pub proof fn lema_menor_irreflexivo(a: Seq<char>)
    ensures
        !menor(a, a),
    decreases a.len(),
{
    if a.len() > 0 {
        lema_menor_irreflexivo(a.drop_first());
    }
}

pub proof fn lema_menor_transitivo(a: Seq<char>, b: Seq<char>, c: Seq<char>)
    requires
        menor(a, b),
        menor(b, c),
    ensures
        menor(a, c),
    decreases a.len(),
{
    if a.len() > 0 && b.len() > 0 && c.len() > 0 {
        if a[0] == b[0] && b[0] == c[0] {
            lema_menor_transitivo(a.drop_first(), b.drop_first(), c.drop_first());
        }
    }
}

pub proof fn lema_menor_total(a: Seq<char>, b: Seq<char>)
    ensures
        a == b || menor(a, b) || menor(b, a),
    decreases a.len(),
{
    if a.len() > 0 && b.len() > 0 && a[0] == b[0] {
        lema_menor_total(a.drop_first(), b.drop_first());
        if a.drop_first() == b.drop_first() {
            assert(a =~= seq![a[0]] + a.drop_first());
            assert(b =~= seq![b[0]] + b.drop_first());
        }
    } else if a.len() == 0 && b.len() == 0 {
        assert(a =~= b);
    }
}

/// Comparing the rest after a common prefix gives the whole comparison.
proof fn lema_menor_tras_prefijo(a: Seq<char>, b: Seq<char>, i: int)
    requires
        0 <= i <= a.len(),
        i <= b.len(),
        a.subrange(0, i) == b.subrange(0, i),
    ensures
        menor(a, b) == menor(a.subrange(i, a.len() as int), b.subrange(i, b.len() as int)),
    decreases i,
{
    if i > 0 {
        assert(a[0] == a.subrange(0, i)[0]);
        assert(b[0] == b.subrange(0, i)[0]);
        assert(a.drop_first().subrange(0, i - 1) =~= a.subrange(0, i).drop_first());
        assert(b.drop_first().subrange(0, i - 1) =~= b.subrange(0, i).drop_first());
        lema_menor_tras_prefijo(a.drop_first(), b.drop_first(), i - 1);
        assert(a.drop_first().subrange(i - 1, a.len() - 1) =~= a.subrange(i, a.len() as int));
        assert(b.drop_first().subrange(i - 1, b.len() - 1) =~= b.subrange(i, b.len() as int));
    } else {
        assert(a.subrange(0, a.len() as int) =~= a);
        assert(b.subrange(0, b.len() as int) =~= b);
    }
}

/// How two texts compare.
#[derive(Clone, Copy, PartialEq, Eq, Debug)]
pub enum Comparacion {
    Antes,
    Igual,
    Despues,
}

/// Compares two texts in key order.
pub fn comparar(a: &[char], b: &[char]) -> (r: Comparacion)
    ensures
        (r == Comparacion::Antes) == menor(a@, b@),
        (r == Comparacion::Igual) == (a@ == b@),
        (r == Comparacion::Despues) == menor(b@, a@),
{
    let mut i: usize = 0;
    while i < a.len() && i < b.len() && a[i] == b[i]
        invariant
            i <= a.len(),
            i <= b.len(),
            a@.subrange(0, i as int) == b@.subrange(0, i as int),
        decreases a.len() - i,
    {
        assert(a@.subrange(0, i + 1) =~= a@.subrange(0, i as int).push(a@[i as int]));
        assert(b@.subrange(0, i + 1) =~= b@.subrange(0, i as int).push(b@[i as int]));
        i = i + 1;
    }
    proof {
        lema_menor_tras_prefijo(a@, b@, i as int);
        lema_menor_tras_prefijo(b@, a@, i as int);
        lema_menor_irreflexivo(a@);
    }
    let ghost ra = a@.subrange(i as int, a@.len() as int);
    let ghost rb = b@.subrange(i as int, b@.len() as int);
    if i == a.len() && i == b.len() {
        assert(a@ =~= a@.subrange(0, i as int));
        assert(b@ =~= b@.subrange(0, i as int));
        Comparacion::Igual
    } else if i == a.len() {
        assert(ra.len() == 0);
        assert(a@ != b@);
        Comparacion::Antes
    } else if i == b.len() {
        assert(rb.len() == 0);
        assert(a@ != b@) by {
            assert(a@.len() != b@.len());
        }
        Comparacion::Despues
    } else if a[i] < b[i] {
        assert(ra[0] == a@[i as int] && rb[0] == b@[i as int]);
        assert(a@ != b@) by {
            assert(a@[i as int] != b@[i as int]);
        }
        Comparacion::Antes
    } else {
        assert(ra[0] == a@[i as int] && rb[0] == b@[i as int]);
        assert(a@ != b@) by {
            assert(a@[i as int] != b@[i as int]);
        }
        Comparacion::Despues
    }
}

/// Keys in strictly increasing order: sorted, and none twice.
pub open spec fn ordenadas(claves: Seq<Seq<char>>) -> bool {
    forall|i: int, j: int| 0 <= i < j < claves.len() ==> menor(#[trigger] claves[i], #[trigger] claves[j])
}

proof fn lema_ordenadas_sin_repetir(claves: Seq<Seq<char>>)
    requires
        ordenadas(claves),
    ensures
        claves.no_duplicates(),
{
    assert forall|i: int, j: int| 0 <= i < claves.len() && 0 <= j < claves.len() && i != j implies claves[i]
        != claves[j] by {
        if i < j {
            lema_menor_irreflexivo(claves[i]);
        } else {
            lema_menor_irreflexivo(claves[j]);
        }
    }
}

proof fn lema_indice_unico(s: Seq<Seq<char>>, j: int)
    requires
        s.no_duplicates(),
        0 <= j < s.len(),
    ensures
        s.index_of(s[j]) == j,
{
    assert(s.contains(s[j]));
    let i = s.index_of(s[j]);
    assert(0 <= i < s.len() && s[i] == s[j]);
}

/// A text-keyed table in key order.
pub struct Tabla<V> {
    entradas: Vec<(String, V)>,
}

impl<V> Tabla<V> {
    /// The keys, in order.
    pub closed spec fn claves(&self) -> Seq<Seq<char>> {
        self.entradas@.map_values(|e: (String, V)| e.0@)
    }

    /// The values, in the order of their keys.
    pub closed spec fn valores(&self) -> Seq<V> {
        self.entradas@.map_values(|e: (String, V)| e.1)
    }

    /// The table as a map from key to value.
    pub closed spec fn view(&self) -> Map<Seq<char>, V> {
        Map::new(
            |k: Seq<char>| self.claves().contains(k),
            |k: Seq<char>| self.valores()[self.claves().index_of(k)],
        )
    }

    /// The keys are in strictly increasing order.
    pub closed spec fn bien_formada(&self) -> bool {
        ordenadas(self.claves())
    }

    /// The keys of a well-formed table are exactly the keys of its map, in
    /// order, each once; the values go with them.
    pub proof fn lema_vista(&self)
        requires
            self.bien_formada(),
        ensures
            ordenadas(self.claves()),
            self.claves().len() == self.valores().len(),
            self.claves().no_duplicates(),
            forall|k: Seq<char>| #[trigger] self.view().contains_key(k) <==> self.claves().contains(k),
            forall|i: int|
                0 <= i < self.claves().len() ==> #[trigger] self.view()[self.claves()[i]]
                    == self.valores()[i],
            self.view().dom().finite(),
            self.view().dom().len() == self.claves().len(),
    {
        lema_ordenadas_sin_repetir(self.claves());
        assert forall|i: int| 0 <= i < self.claves().len() implies #[trigger] self.view()[self.claves()[i]]
            == self.valores()[i] by {
            lema_indice_unico(self.claves(), i);
        }
        assert(self.view().dom() =~= self.claves().to_set());
        self.claves().unique_seq_to_set();
    }

    /// An empty table.
    pub fn nueva() -> (t: Self)
        ensures
            t.bien_formada(),
            t@ == Map::<Seq<char>, V>::empty(),
    {
        let t = Tabla { entradas: Vec::new() };
        assert(t.claves() =~= Seq::<Seq<char>>::empty());
        assert(t@ =~= Map::<Seq<char>, V>::empty());
        t
    }

    /// How many keys there are.
    pub fn len(&self) -> (n: usize)
        requires
            self.bien_formada(),
        ensures
            n == self.claves().len(),
            n == self@.dom().len(),
    {
        proof {
            self.lema_vista();
        }
        self.entradas.len()
    }

    /// The `i`-th key and its value, in key order.
    pub fn entrada(&self, i: usize) -> (r: (&String, &V))
        requires
            i < self.claves().len(),
        ensures
            r.0@ == self.claves()[i as int],
            *r.1 == self.valores()[i as int],
    {
        let e = &self.entradas[i];
        (&e.0, &e.1)
    }

    /// Where `k` is, or where it would go.
    fn posicion(&self, k: &[char]) -> (r: (usize, bool))
        requires
            self.bien_formada(),
        ensures
            r.0 <= self.claves().len(),
            forall|j: int| 0 <= j < r.0 ==> menor(#[trigger] self.claves()[j], k@),
            r.1 ==> r.0 < self.claves().len() && self.claves()[r.0 as int] == k@,
            !r.1 ==> forall|j: int|
                r.0 <= j < self.claves().len() ==> menor(k@, #[trigger] self.claves()[j]),
    {
        let mut i: usize = 0;
        while i < self.entradas.len()
            invariant
                self.bien_formada(),
                i <= self.claves().len(),
                self.claves().len() == self.entradas@.len(),
                forall|j: int| 0 <= j < i ==> menor(#[trigger] self.claves()[j], k@),
            decreases self.entradas.len() - i,
        {
            let clave = caracteres(self.entradas[i].0.as_str());
            assert(clave@ == self.claves()[i as int]);
            match comparar(clave.as_slice(), k) {
                Comparacion::Antes => {
                    i = i + 1;
                },
                Comparacion::Igual => {
                    return (i, true);
                },
                Comparacion::Despues => {
                    assert forall|j: int| i <= j < self.claves().len() implies menor(
                        k@,
                        #[trigger] self.claves()[j],
                    ) by {
                        if j > i {
                            lema_menor_transitivo(k@, self.claves()[i as int], self.claves()[j]);
                        }
                    }
                    return (i, false);
                },
            }
        }
        (i, false)
    }

    /// The value under `k`.
    pub fn obtener(&self, k: &str) -> (r: Option<&V>)
        requires
            self.bien_formada(),
        ensures
            match r {
                Some(v) => self@.contains_key(k@) && *v == self@[k@],
                None => !self@.contains_key(k@),
            },
    {
        proof {
            self.lema_vista();
        }
        let c = caracteres(k);
        let (i, hay) = self.posicion(c.as_slice());
        if hay {
            Some(&self.entradas[i].1)
        } else {
            proof {
                if self.claves().contains(k@) {
                    let j = self.claves().index_of(k@);
                    if j < i {
                        lema_menor_irreflexivo(k@);
                    } else {
                        lema_menor_irreflexivo(k@);
                    }
                }
            }
            None
        }
    }

    /// Whether there is a value under `k`.
    pub fn contains_key(&self, k: &str) -> (r: bool)
        requires
            self.bien_formada(),
        ensures
            r == self@.contains_key(k@),
    {
        self.obtener(k).is_some()
    }

    /// Puts `v` under `k`, replacing what was there.
    pub fn insertar(&mut self, k: String, v: V)
        requires
            old(self).bien_formada(),
        ensures
            final(self).bien_formada(),
            final(self)@ == old(self)@.insert(k@, v),
    {
        proof {
            self.lema_vista();
        }
        let ghost anterior = self@;
        let ghost claves0 = self.claves();
        let ghost valores0 = self.valores();
        let c = caracteres(k.as_str());
        let (i, hay) = self.posicion(c.as_slice());
        if hay {
            let ghost kv = k@;
            self.entradas.set(i, (k, v));
            assert(self.claves() =~= claves0);
            assert(self.valores() =~= valores0.update(i as int, v));
            proof {
                self.lema_vista();
                assert forall|x: Seq<char>| #[trigger] self@.contains_key(x) implies self@[x]
                    == anterior.insert(kv, v)[x] by {
                    let j = self.claves().index_of(x);
                    lema_indice_unico(self.claves(), j);
                    assert(0 <= j < self.claves().len());
                    lema_indice_unico(claves0, j);
                }
                assert(self@ =~= anterior.insert(kv, v));
            }
        } else {
            let ghost kv = k@;
            self.entradas.insert(i, (k, v));
            assert(self.claves() =~= claves0.insert(i as int, kv));
            assert(self.valores() =~= valores0.insert(i as int, v));
            assert(ordenadas(self.claves())) by {
                assert forall|a: int, b: int| 0 <= a < b < self.claves().len() implies menor(
                    #[trigger] self.claves()[a],
                    #[trigger] self.claves()[b],
                ) by {
                    if a < i && b == i {
                    } else if a < i && b > i {
                        lema_menor_transitivo(self.claves()[a], kv, self.claves()[b]);
                    } else if a == i {
                    } else {
                    }
                }
            }
            proof {
                self.lema_vista();
                assert forall|x: Seq<char>| #[trigger] self@.contains_key(x) implies self@[x]
                    == anterior.insert(kv, v)[x] by {
                    let j = self.claves().index_of(x);
                    assert(self.claves()[j] == x);
                    assert(self@[self.claves()[j]] == self.valores()[j]);
                    if j < i {
                        assert(claves0[j] == x);
                        assert(anterior[claves0[j]] == valores0[j]);
                        lema_menor_irreflexivo(x);
                    } else if j > i {
                        assert(claves0[j - 1] == x);
                        assert(anterior[claves0[j - 1]] == valores0[j - 1]);
                        lema_menor_irreflexivo(x);
                    }
                }
                assert forall|x: Seq<char>| #[trigger] anterior.insert(kv, v).contains_key(x)
                    implies self@.contains_key(x) by {
                    if x != kv {
                        let j = claves0.index_of(x);
                        if j < i {
                            assert(self.claves()[j] == x);
                        } else {
                            assert(self.claves()[j + 1] == x);
                        }
                    } else {
                        assert(self.claves()[i as int] == kv);
                    }
                }
                assert(self@ =~= anterior.insert(kv, v));
            }
        }
    }

    /// Adds a key that goes after every key already in the table.
    pub fn agregar_al_final(&mut self, k: String, v: V)
        requires
            old(self).bien_formada(),
            forall|j: int| 0 <= j < old(self).claves().len() ==> menor(#[trigger] old(self).claves()[j], k@),
        ensures
            final(self).bien_formada(),
            final(self)@ == old(self)@.insert(k@, v),
            final(self).claves() == old(self).claves().push(k@),
            final(self).valores() == old(self).valores().push(v),
    {
        proof {
            self.lema_vista();
        }
        let ghost anterior = self@;
        let ghost claves0 = self.claves();
        let ghost valores0 = self.valores();
        let ghost kv = k@;
        self.entradas.push((k, v));
        assert(self.claves() =~= claves0.push(kv));
        assert(self.valores() =~= valores0.push(v));
        proof {
            self.lema_vista();
            assert forall|x: Seq<char>| #[trigger] self@.contains_key(x) implies self@[x]
                == anterior.insert(kv, v)[x] by {
                let j = self.claves().index_of(x);
                assert(self.claves()[j] == x);
                assert(self@[self.claves()[j]] == self.valores()[j]);
                if j < claves0.len() {
                    assert(claves0[j] == x);
                    assert(anterior[claves0[j]] == valores0[j]);
                    lema_menor_irreflexivo(x);
                }
            }
            assert forall|x: Seq<char>| #[trigger] anterior.insert(kv, v).contains_key(x) implies self@.contains_key(
                x,
            ) by {
                if x != kv {
                    let j = claves0.index_of(x);
                    assert(self.claves()[j] == x);
                } else {
                    assert(self.claves()[claves0.len() as int] == kv);
                }
            }
            assert(self@ =~= anterior.insert(kv, v));
        }
    }

    /// Takes `k` out of the table, and gives back what was under it.
    pub fn quitar(&mut self, k: &str) -> (r: Option<V>)
        requires
            old(self).bien_formada(),
        ensures
            final(self).bien_formada(),
            final(self)@ == old(self)@.remove(k@),
            r == (if old(self)@.contains_key(k@) {
                Some(old(self)@[k@])
            } else {
                None
            }),
    {
        proof {
            self.lema_vista();
        }
        let ghost anterior = self@;
        let ghost claves0 = self.claves();
        let ghost valores0 = self.valores();
        let c = caracteres(k);
        let (i, hay) = self.posicion(c.as_slice());
        if !hay {
            proof {
                if claves0.contains(k@) {
                    let j = claves0.index_of(k@);
                    lema_menor_irreflexivo(k@);
                }
                assert(anterior.remove(k@) =~= anterior);
            }
            return None;
        }
        let quitada = self.entradas.remove(i);
        assert(quitada.1 == valores0[i as int]);
        assert(anterior[claves0[i as int]] == valores0[i as int]);
        assert(self.claves() =~= claves0.remove(i as int));
        assert(self.valores() =~= valores0.remove(i as int));
        assert(ordenadas(self.claves())) by {
            assert forall|a: int, b: int| 0 <= a < b < self.claves().len() implies menor(
                #[trigger] self.claves()[a],
                #[trigger] self.claves()[b],
            ) by {
                if a < i && b >= i {
                    assert(self.claves()[b] == claves0[b + 1]);
                } else if a >= i {
                    assert(self.claves()[a] == claves0[a + 1]);
                    assert(self.claves()[b] == claves0[b + 1]);
                }
            }
        }
        proof {
            self.lema_vista();
            assert forall|x: Seq<char>| #[trigger] self@.contains_key(x) implies self@[x] == anterior.remove(
                k@,
            )[x] && x != k@ by {
                let j = self.claves().index_of(x);
                lema_indice_unico(self.claves(), j);
                if j < i {
                    lema_indice_unico(claves0, j);
                } else {
                    lema_indice_unico(claves0, j + 1);
                }
            }
            assert forall|x: Seq<char>| #[trigger] anterior.remove(k@).contains_key(x) implies self@.contains_key(
                x,
            ) by {
                let j = claves0.index_of(x);
                if j < i {
                    assert(self.claves()[j] == x);
                } else {
                    assert(self.claves()[j - 1] == x);
                }
            }
            assert(self@ =~= anterior.remove(k@));
        }
        Some(quitada.1)
    }
}

} // verus!
