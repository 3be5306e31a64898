//! Keeping track of the dialog agents.
//!
//! There is one agent per logged-in session and one service for the whole
//! machine, so the service has to know which agent belongs to which user.
//! Putting the question to an agent is a call on the bus, made by the program
//! around this library.
use vstd::prelude::*;
use std::collections::HashMap;
use crate::protocol::AGENT_BINARY;
use vstd::std_specs::iter::IteratorSpec;
use crate::texto::{anexar, cadena, caracteres, iguales};

verus! {

broadcast use {vstd::std_specs::hash::group_hash_axioms, vstd::string::group_string_axioms};

/// How long to wait for someone to answer the dialog, in seconds.
///
/// Long enough to read it and think about it, short enough that a wedged agent
/// eventually releases the program waiting on the other end instead of hanging
/// it for the rest of the session.
pub const ANSWER_TIMEOUT_SECS: u64 = 120;

/// The unique bus name and object path of one registered agent.
pub struct RegisteredAgent {
    pub unique_name: String,
    pub object_path: String,
}

pub open spec fn vista_de_agente(a: RegisteredAgent) -> (Seq<char>, Seq<char>) {
    (a.unique_name@, a.object_path@)
}

/// Whether this executable is the installed agent.
///
/// The comparison is against one absolute path and nothing else. Matching on
/// the file name, or on anything the caller controls, would let a program in
/// the user's home called `vasak-permissions-agent` register itself and
/// approve its own requests, which is the one thing this must prevent.
pub fn is_the_agent(binary_path: &str) -> (r: bool)
    ensures
        r == (binary_path@ == AGENT_BINARY@),
{
    let a = caracteres(binary_path);
    let b = caracteres(AGENT_BINARY);
    iguales(a.as_slice(), b.as_slice())
}

/// The message a rejected registration is answered with.
pub open spec fn rechazo_de_registro(binary_path: Seq<char>) -> Seq<char> {
    "solo "@ + AGENT_BINARY@ + " puede actuar como agente de permisos; se rechazó "@ + binary_path
}

/// The registry after the agents on connection `nombre` went away.
pub open spec fn sin_la_conexion(m: Map<u32, (Seq<char>, Seq<char>)>, nombre: Seq<char>) -> Map<
    u32,
    (Seq<char>, Seq<char>),
> {
    Map::new(|u: u32| m.contains_key(u) && m[u].0 != nombre, |u: u32| m[u])
}

pub struct AgentRegistry {
    by_uid: HashMap<u32, RegisteredAgent>,
}

impl AgentRegistry {
    /// Each user's agent, as its unique bus name and object path.
    pub closed spec fn view(&self) -> Map<u32, (Seq<char>, Seq<char>)> {
        Map::new(
            |u: u32| self.by_uid@.contains_key(u),
            |u: u32| vista_de_agente(self.by_uid@[u]),
        )
    }

    /// A registry with no agent in it.
    pub fn new() -> (r: Self)
        ensures
            r@ == Map::<u32, (Seq<char>, Seq<char>)>::empty(),
    {
        let r = AgentRegistry { by_uid: HashMap::new() };
        assert(r@ =~= Map::<u32, (Seq<char>, Seq<char>)>::empty());
        r
    }

    /// Accepts a registration, provided the caller really is the agent.
    ///
    /// The check is the executable path, and it is the reason a hostile
    /// program cannot register itself and approve its own requests: writing
    /// to `/usr/bin` needs root, so nothing running as the user can occupy
    /// that path. A later registration replaces the earlier one: the
    /// session's agent may legitimately restart.
    pub fn register(
        &mut self,
        uid: u32,
        binary_path: &str,
        unique_name: String,
        object_path: String,
    ) -> (r: Result<(), String>)
        ensures
            r is Ok <==> binary_path@ == AGENT_BINARY@,
            r is Ok ==> final(self)@ == old(self)@.insert(uid, (unique_name@, object_path@)),
            r matches Err(m) ==> final(self)@ == old(self)@ && m@ == rechazo_de_registro(
                binary_path@,
            ),
    {
        if !is_the_agent(binary_path) {
            let mut m = caracteres("solo ");
            anexar(&mut m, caracteres(AGENT_BINARY).as_slice());
            anexar(
                &mut m,
                caracteres(" puede actuar como agente de permisos; se rechazó ").as_slice(),
            );
            anexar(&mut m, caracteres(binary_path).as_slice());
            return Err(cadena(m.as_slice()));
        }
        let ghost antes = self@;
        let ghost nuevo = (unique_name@, object_path@);
        self.by_uid.insert(uid, RegisteredAgent { unique_name, object_path });
        assert(self@ =~= antes.insert(uid, nuevo));
        Ok(())
    }

    /// Drops every agent on a connection that went away, so the service stops
    /// trying to reach a name nobody owns.
    pub fn forget_connection(&mut self, unique_name: &str)
        ensures
            final(self)@ == sin_la_conexion(old(self)@, unique_name@),
    {
        let ghost antes = self@;
        let ghost claves = self.by_uid.keys().remaining();
        let mut usuarios: Vec<u32> = Vec::new();
        for u in it: self.by_uid.keys()
            invariant
                usuarios@ == it.seq().take(it.index()).unref(),
                it.seq() == claves,
        {
            usuarios.push(*u);
            assert(it.seq().take(it.index() + 1).unref() =~= it.seq().take(it.index()).unref().push(*u));
        }
        assert(claves.take(claves.len() as int) =~= claves);
        assert(usuarios@ == claves.unref());
        assert(usuarios@.to_set() =~= antes.dom());
        let nombre = caracteres(unique_name);
        let mut i: usize = 0;
        while i < usuarios.len()
            invariant
                i <= usuarios@.len(),
                nombre@ == unique_name@,
                usuarios@.to_set() == antes.dom(),
                usuarios@.no_duplicates(),
                forall|u: u32|
                    #![trigger self@.contains_key(u)]
                    (exists|j: int| 0 <= j < i && usuarios@[j] == u) ==> (self@.contains_key(u)
                        <==> sin_la_conexion(antes, unique_name@).contains_key(u)),
                forall|u: u32|
                    #![trigger self@.contains_key(u)]
                    !(exists|j: int| 0 <= j < i && usuarios@[j] == u) ==> (self@.contains_key(u)
                        <==> antes.contains_key(u)),
                forall|u: u32| #[trigger] self@.contains_key(u) ==> self@[u] == antes[u],
            decreases usuarios@.len() - i,
        {
            let u = usuarios[i];
            let quitar = match self.by_uid.get(&u) {
                Some(agente) => iguales(caracteres(agente.unique_name.as_str()).as_slice(), nombre.as_slice()),
                None => false,
            };
            let ghost previo = self@;
            proof {
                if exists|j: int| 0 <= j < i && usuarios@[j] == u {
                    let j = choose|j: int| 0 <= j < i && usuarios@[j] == u;
                    assert(usuarios@[j] == usuarios@[i as int]);
                }
                assert(previo.contains_key(u) <==> antes.contains_key(u));
            }
            if quitar {
                self.by_uid.remove(&u);
                assert(self@ =~= previo.remove(u));
            }
            proof {
                assert forall|x: u32|
                    #![trigger self@.contains_key(x)]
                    (exists|j: int| 0 <= j < i + 1 && usuarios@[j] == x) implies (self@.contains_key(x)
                        <==> sin_la_conexion(antes, unique_name@).contains_key(x)) by {
                    if x != u {
                        let j = choose|j: int| 0 <= j < i + 1 && usuarios@[j] == x;
                        assert(j != i);
                    }
                }
                assert forall|x: u32|
                    #![trigger self@.contains_key(x)]
                    !(exists|j: int| 0 <= j < i + 1 && usuarios@[j] == x) implies (self@.contains_key(x)
                        <==> antes.contains_key(x)) by {
                    assert(x != u);
                }
            }
            i = i + 1;
        }
        proof {
            assert forall|u: u32| #[trigger] sin_la_conexion(antes, unique_name@).contains_key(u) implies self@.contains_key(u) by {
                if antes.contains_key(u) {
                    assert(usuarios@.to_set().contains(u));
                    let j = choose|j: int| 0 <= j < usuarios@.len() && usuarios@[j] == u;
                }
            }
            assert forall|u: u32| #[trigger] self@.contains_key(u) implies sin_la_conexion(antes, unique_name@).contains_key(u) by {
                {
                    assert(antes.contains_key(u));
                    assert(usuarios@.to_set().contains(u));
                    let j = choose|j: int| 0 <= j < usuarios@.len() && usuarios@[j] == u;
                }
            }
            assert(self@ =~= sin_la_conexion(antes, unique_name@));
        }
    }

    /// The agent of `uid`, if one is registered.
    pub fn agent_for(&self, uid: u32) -> (r: Option<RegisteredAgent>)
        ensures
            match r {
                Some(a) => self@.contains_key(uid) && vista_de_agente(a) == self@[uid],
                None => !self@.contains_key(uid),
            },
    {
        match self.by_uid.get(&uid) {
            Some(a) => Some(
                RegisteredAgent {
                    unique_name: a.unique_name.clone(),
                    object_path: a.object_path.clone(),
                },
            ),
            None => None,
        }
    }
}

impl Default for AgentRegistry {
    fn default() -> (r: Self)
        ensures
            r@ == Map::<u32, (Seq<char>, Seq<char>)>::empty(),
    {
        AgentRegistry::new()
    }
}

/// Each user gets their own agent: registering for one user leaves every
/// other user's agent as it was, so an answer is never routed to somebody
/// else's screen.
pub proof fn cada_persona_tiene_su_agente(
    m: Map<u32, (Seq<char>, Seq<char>)>,
    uid: u32,
    agente: (Seq<char>, Seq<char>),
    otro: u32,
)
    requires
        otro != uid,
    ensures
        m.insert(uid, agente).contains_key(otro) == m.contains_key(otro),
        m.contains_key(otro) ==> m.insert(uid, agente)[otro] == m[otro],
        m.insert(uid, agente)[uid] == agente,
{
}

/// An agent that disconnects is forgotten: after its connection goes away no
/// user is left with it, and every other agent stays.
pub proof fn la_conexion_que_se_va_se_olvida(
    m: Map<u32, (Seq<char>, Seq<char>)>,
    nombre: Seq<char>,
    uid: u32,
)
    ensures
        sin_la_conexion(m, nombre).contains_key(uid) ==> sin_la_conexion(m, nombre)[uid].0 != nombre,
        m.contains_key(uid) && m[uid].0 != nombre ==> sin_la_conexion(m, nombre).contains_key(uid)
            && sin_la_conexion(m, nombre)[uid] == m[uid],
{
}

} // verus!
