//! What the dialog agent decides about a request that comes through the
//! desktop portal: when to ask, what to answer, and what to write down.
//!
//! **When in doubt, ask.** An identity that cannot be used, a resource that
//! cannot be named, a service that does not answer: in every case the dialog
//! appears, which is the old behaviour. What a failure never does is grant
//! anything.
use vstd::prelude::*;
use crate::protocol::Decision;
use crate::texto::{caracteres, iguales};

verus! {

broadcast use vstd::string::group_string_axioms;

/// What the person answered, or that the question could not be put.
#[derive(Debug, Clone, Copy, PartialEq, Eq, Structural)]
pub enum Respuesta {
    Permitio,
    Nego,
    /// The question never got asked: the request is refused and nothing is
    /// written down.
    NoSePudoPreguntar,
}

impl Respuesta {
    pub fn permitio(self) -> (r: bool)
        ensures
            r == (self == Respuesta::Permitio),
    {
        matches!(self, Respuesta::Permitio)
    }

    /// Whether a person decided this, and so it can be remembered.
    pub fn la_contesto_alguien(self) -> (r: bool)
        ensures
            r == (self != Respuesta::NoSePudoPreguntar),
    {
        !matches!(self, Respuesta::NoSePudoPreguntar)
    }
}

/// What had been decided before.
#[derive(Debug, Clone, Copy, PartialEq, Eq, Structural)]
pub enum Decidido {
    Permitido,
    Negado,
    /// Nobody decided yet, or it could not be found out: ask.
    SinDecidir,
}

impl Decidido {
    pub fn de(decision: Decision) -> (r: Self)
        ensures
            r == match decision {
                Decision::Allowed => Decidido::Permitido,
                Decision::Denied => Decidido::Negado,
                Decision::Unknown => Decidido::SinDecidir,
            },
    {
        match decision {
            Decision::Allowed => Decidido::Permitido,
            Decision::Denied => Decidido::Negado,
            Decision::Unknown => Decidido::SinDecidir,
        }
    }

    /// What the service's answer says, when it can be read: a decision's id,
    /// or anything else, which reads as "not decided".
    pub fn del_id(id: &str) -> (r: Self)
        ensures
            r == (if id@ == "allowed"@ {
                Decidido::Permitido
            } else if id@ == "denied"@ {
                Decidido::Negado
            } else {
                Decidido::SinDecidir
            }),
    {
        let c = caracteres(id);
        if iguales(c.as_slice(), caracteres("allowed").as_slice()) {
            Decidido::Permitido
        } else if iguales(c.as_slice(), caracteres("denied").as_slice()) {
            Decidido::Negado
        } else {
            Decidido::SinDecidir
        }
    }
}

/// The resource a portal dialog is about, read from its icon: the portal's
/// access dialog sends free, translated text and says nothing else
/// machine-readable. Anything not recognised names nothing, so the request is
/// asked every time rather than recorded under the wrong resource.
pub open spec fn recurso_del_icono_spec(icono: Option<Seq<char>>) -> Option<Seq<char>> {
    match icono {
        Some(i) => if i == "camera-web-symbolic"@ || i == "camera-web"@ {
            Some("camera"@)
        } else {
            None
        },
        None => None,
    }
}

pub fn recurso_del_dialogo(icono: Option<&str>) -> (r: Option<&'static str>)
    ensures
        match r {
            Some(s) => recurso_del_icono_spec(
                match icono {
                    Some(i) => Some(i@),
                    None => None,
                },
            ) == Some(s@),
            None => recurso_del_icono_spec(
                match icono {
                    Some(i) => Some(i@),
                    None => None,
                },
            ) is None,
        },
{
    match icono {
        None => None,
        Some(i) => {
            let c = caracteres(i);
            if iguales(c.as_slice(), caracteres("camera-web-symbolic").as_slice()) || iguales(
                c.as_slice(),
                caracteres("camera-web").as_slice(),
            ) {
                Some("camera")
            } else {
                None
            }
        },
    }
}

/// What to do with a portal request before any dialog.
#[derive(Debug, Clone, Copy, PartialEq, Eq, Structural)]
pub enum Antes {
    /// Answer at once, with no dialog.
    Contestar(bool),
    /// Show the dialog.
    Preguntar,
}

/// Before any dialog: with no resource to name there is nothing to look up,
/// so ask; what was allowed is allowed without a dialog; what was refused is
/// refused without one, since a refusal asked again is an insistence that
/// ends up giving in; what nobody decided is asked.
pub fn antes_de_preguntar(hay_recurso: bool, decidido: Decidido) -> (r: Antes)
    ensures
        r == (if !hay_recurso {
            Antes::Preguntar
        } else {
            match decidido {
                Decidido::Permitido => Antes::Contestar(true),
                Decidido::Negado => Antes::Contestar(false),
                Decidido::SinDecidir => Antes::Preguntar,
            }
        }),
{
    if !hay_recurso {
        return Antes::Preguntar;
    }
    match decidido {
        Decidido::Permitido => Antes::Contestar(true),
        Decidido::Negado => Antes::Contestar(false),
        Decidido::SinDecidir => Antes::Preguntar,
    }
}

/// After the dialog: the answer to give, and whether to write it down. Only
/// what a person answered is written down: a dialog that could not be shown
/// also refuses, but it is nobody's decision, and recording it would refuse
/// the application for good over a race between two requests.
pub fn despues_de_preguntar(hay_recurso: bool, respuesta: Respuesta) -> (r: (bool, bool))
    ensures
        r.0 == (respuesta == Respuesta::Permitio),
        r.1 == (hay_recurso && respuesta != Respuesta::NoSePudoPreguntar),
{
    (respuesta.permitio(), hay_recurso && respuesta.la_contesto_alguien())
}

/// What a portal request comes to: whether it is granted, and whether an
/// answer is written down.
pub open spec fn desenlace(hay_recurso: bool, decidido: Decidido, respuesta: Respuesta) -> (bool, bool) {
    if hay_recurso && decidido == Decidido::Permitido {
        (true, false)
    } else if hay_recurso && decidido == Decidido::Negado {
        (false, false)
    } else {
        (respuesta == Respuesta::Permitio, hay_recurso && respuesta != Respuesta::NoSePudoPreguntar)
    }
}

/// What the two steps give, put together, is [`desenlace`].
pub proof fn los_dos_pasos_dan_el_desenlace(hay_recurso: bool, decidido: Decidido, respuesta: Respuesta)
    ensures
        desenlace(hay_recurso, decidido, respuesta) == match (if !hay_recurso {
            Antes::Preguntar
        } else {
            match decidido {
                Decidido::Permitido => Antes::Contestar(true),
                Decidido::Negado => Antes::Contestar(false),
                Decidido::SinDecidir => Antes::Preguntar,
            }
        }) {
            Antes::Contestar(b) => (b, false),
            Antes::Preguntar => (
                respuesta == Respuesta::Permitio,
                hay_recurso && respuesta != Respuesta::NoSePudoPreguntar,
            ),
        },
{
}

/// Nothing is granted by failing: a portal request is granted only when the
/// person allowed it, now or before. And only what a person answered is
/// written down, never a dialog that could not be shown, nor a decision that
/// was only read.
pub proof fn solo_concede_quien_permitio(hay_recurso: bool, decidido: Decidido, respuesta: Respuesta)
    ensures
        desenlace(hay_recurso, decidido, respuesta).0 ==> (hay_recurso && decidido
            == Decidido::Permitido) || respuesta == Respuesta::Permitio,
        desenlace(hay_recurso, decidido, respuesta).1 ==> hay_recurso && decidido
            == Decidido::SinDecidir && respuesta != Respuesta::NoSePudoPreguntar,
{
}

/// A request relayed by the desktop portal, as the dialog shows it. It is
/// kept apart from the service's requests because the honest thing to show
/// differs: the portal hands over free text and cannot say who the program is,
/// so it must not be presented as if the program had been identified.
#[derive(Debug, Clone)]
pub struct PortalQuestion {
    /// Sandbox identifier, empty for anything not in a sandbox, which is
    /// nearly everything: the dialog says so instead of leaving a blank where
    /// a program name belongs.
    pub app_id: String,
    pub title: String,
    pub subtitle: String,
    pub body: String,
}

} // verus!
