//! What the service decides when a program asks, step by step.
//!
//! Answering "may this program use this?" alternates decisions with work on
//! the outside: reading the stored policy, taking a slot from the throttle,
//! putting the question to the user's agent, writing the answer down. The
//! decisions live here, as a state machine: the program around the library
//! performs each action and hands back what came of it.
use vstd::prelude::*;
use crate::excepcion::{permitidos, permitidos_de};
use crate::policy::{anotada, UserPolicy};
use crate::protocol::{may_request, puede_pedir, Application, Decision, Resource};

verus! {

/// Why a resource id is turned away before anything else is looked at.
#[derive(Debug, Clone, Copy, PartialEq, Eq, Structural)]
pub enum ResourceRejection {
    /// It names a resource, but nothing enforces a decision about it: the
    /// person would be asked, the answer stored, and nothing would change.
    NotEnforceable,
    /// It names nothing this service knows.
    Unknown,
}

/// Rejects anything this service cannot honour, and gives back the resource
/// otherwise. `key` is the identity the decision would be stored under, and
/// the answer depends on it: a screen capture changes nothing recorded
/// against an executable's path, and does against an identity of the portal.
pub fn check_resource(resource_id: &str, key: &str) -> (r: Result<Resource, ResourceRejection>)
    ensures
        match Resource::desde_id(resource_id@) {
            None => r == Err::<Resource, ResourceRejection>(ResourceRejection::Unknown),
            Some(res) => if res.tiene_efecto_para(key@) {
                r == Ok::<Resource, ResourceRejection>(res)
            } else {
                r == Err::<Resource, ResourceRejection>(ResourceRejection::NotEnforceable)
            },
        },
{
    match Resource::from_id(resource_id) {
        None => Err(ResourceRejection::Unknown),
        Some(resource) => if resource.decision_has_effect_for(key) {
            Ok(resource)
        } else {
            Err(ResourceRejection::NotEnforceable)
        },
    }
}

/// Why the settings screen's change is turned away.
#[derive(Debug, Clone, Copy, PartialEq, Eq, Structural)]
pub enum ChangeRejection {
    Resource(ResourceRejection),
    /// Allowing a resource outside the program's declared scope: `decide`
    /// would refuse it anyway, so the switch would be on and do nothing.
    OutOfScope,
}

/// Checks a change from the settings screen before anything is touched.
/// Denying something out of scope is accepted: it changes nothing, but it
/// misleads nobody either.
pub fn check_change(binary_path: &str, resource_id: &str, allowed: bool) -> (r: Result<
    Resource,
    ChangeRejection,
>)
    ensures
        match Resource::desde_id(resource_id@) {
            None => r == Err::<Resource, ChangeRejection>(
                ChangeRejection::Resource(ResourceRejection::Unknown),
            ),
            Some(res) => if !res.tiene_efecto_para(binary_path@) {
                r == Err::<Resource, ChangeRejection>(
                    ChangeRejection::Resource(ResourceRejection::NotEnforceable),
                )
            } else if allowed && !puede_pedir(binary_path@, resource_id@) {
                r == Err::<Resource, ChangeRejection>(ChangeRejection::OutOfScope)
            } else {
                r == Ok::<Resource, ChangeRejection>(res)
            },
        },
{
    match check_resource(resource_id, binary_path) {
        Err(e) => Err(ChangeRejection::Resource(e)),
        Ok(resource) => if allowed && !may_request(binary_path, resource_id) {
            Err(ChangeRejection::OutOfScope)
        } else {
            Ok(resource)
        },
    }
}

/// Where a question stands.
#[derive(Debug, Clone, Copy, PartialEq, Eq, Structural)]
pub enum Etapa {
    /// Waiting for the stored policy to be read.
    Leyendo,
    /// Nothing is stored: waiting for the throttle.
    PidiendoCupo,
    /// Waiting for the person's answer.
    Preguntando,
    /// Waiting for this answer to be written down.
    Anotando(Decision),
    /// Answered.
    Terminada,
}

/// What came of the last action.
#[derive(Debug, Clone, Copy, PartialEq, Eq, Structural)]
pub enum Evento {
    /// The decision stored for the program and the resource; `None` when the
    /// policy could not be read.
    Leida(Option<Decision>),
    /// Whether the throttle let the question through.
    Cupo(bool),
    /// The person's answer; `None` when nobody could be asked or nobody
    /// answered.
    Respuesta(Option<bool>),
    /// Whether the answer was written down.
    Guardada(bool),
}

/// What to do next.
#[derive(Debug, Clone, Copy, PartialEq, Eq, Structural)]
pub enum Accion {
    /// Read the stored decision for the program and the resource.
    LeerPolitica,
    /// Take a slot from the throttle.
    PedirCupo,
    /// Put the question to the user's agent.
    Preguntar,
    /// Read the policy again, record this as an answer the program asked
    /// for, and save it.
    Anotar(Decision),
    /// Give the throttle's slot back, since no dialog was shown, and refuse.
    DevolverCupoYNegar,
    /// Answer the caller.
    Contestar(bool),
    /// Answer the caller with the error of the step that failed.
    Fallar,
}

/// The first step of a question from the program at `ruta` about `id`.
///
/// Before anything else, even before looking at what was decided: a program
/// asking for something outside its declared scope is not a question for the
/// person, it is a bug or an attack, and it is refused without asking and
/// without recording anything.
pub open spec fn inicio(ruta: Seq<char>, id: Seq<char>) -> (Etapa, Accion) {
    if !puede_pedir(ruta, id) {
        (Etapa::Terminada, Accion::Contestar(false))
    } else {
        (Etapa::Leyendo, Accion::LeerPolitica)
    }
}

/// The step after `evento`, from `etapa`. An event that does not belong to
/// the stage refuses.
pub open spec fn transicion(etapa: Etapa, evento: Evento) -> (Etapa, Accion) {
    match (etapa, evento) {
        (Etapa::Leyendo, Evento::Leida(None)) => (Etapa::Terminada, Accion::Fallar),
        (Etapa::Leyendo, Evento::Leida(Some(Decision::Allowed))) => (
            Etapa::Terminada,
            Accion::Contestar(true),
        ),
        (Etapa::Leyendo, Evento::Leida(Some(Decision::Denied))) => (
            Etapa::Terminada,
            Accion::Contestar(false),
        ),
        (Etapa::Leyendo, Evento::Leida(Some(Decision::Unknown))) => (
            Etapa::PidiendoCupo,
            Accion::PedirCupo,
        ),
        // Over the ceiling: refused without asking, and nothing recorded, so
        // a burst of noise does not deny for good a program whose dialog was
        // never seen.
        (Etapa::PidiendoCupo, Evento::Cupo(false)) => (Etapa::Terminada, Accion::Contestar(false)),
        (Etapa::PidiendoCupo, Evento::Cupo(true)) => (Etapa::Preguntando, Accion::Preguntar),
        // Nobody could be asked: refused, nothing remembered, slot given back.
        (Etapa::Preguntando, Evento::Respuesta(None)) => (
            Etapa::Terminada,
            Accion::DevolverCupoYNegar,
        ),
        // A real answer is remembered, refusals included.
        (Etapa::Preguntando, Evento::Respuesta(Some(a))) => {
            let d = if a {
                Decision::Allowed
            } else {
                Decision::Denied
            };
            (Etapa::Anotando(d), Accion::Anotar(d))
        },
        (Etapa::Anotando(d), Evento::Guardada(true)) => (
            Etapa::Terminada,
            Accion::Contestar(d == Decision::Allowed),
        ),
        (Etapa::Anotando(_), Evento::Guardada(false)) => (Etapa::Terminada, Accion::Fallar),
        _ => (Etapa::Terminada, Accion::Fallar),
    }
}

/// Starts answering whether the program at `binary_path` may use
/// `resource_id`.
pub fn empezar(binary_path: &str, resource_id: &str) -> (r: (Etapa, Accion))
    ensures
        r == inicio(binary_path@, resource_id@),
{
    if !may_request(binary_path, resource_id) {
        (Etapa::Terminada, Accion::Contestar(false))
    } else {
        (Etapa::Leyendo, Accion::LeerPolitica)
    }
}

/// The next step of a question, given what came of the last action.
pub fn avanzar(etapa: Etapa, evento: Evento) -> (r: (Etapa, Accion))
    ensures
        r == transicion(etapa, evento),
{
    match (etapa, evento) {
        (Etapa::Leyendo, Evento::Leida(None)) => (Etapa::Terminada, Accion::Fallar),
        (Etapa::Leyendo, Evento::Leida(Some(d))) => match d {
            Decision::Allowed => (Etapa::Terminada, Accion::Contestar(true)),
            Decision::Denied => (Etapa::Terminada, Accion::Contestar(false)),
            Decision::Unknown => (Etapa::PidiendoCupo, Accion::PedirCupo),
        },
        (Etapa::PidiendoCupo, Evento::Cupo(dentro)) => if dentro {
            (Etapa::Preguntando, Accion::Preguntar)
        } else {
            (Etapa::Terminada, Accion::Contestar(false))
        },
        (Etapa::Preguntando, Evento::Respuesta(None)) => (
            Etapa::Terminada,
            Accion::DevolverCupoYNegar,
        ),
        (Etapa::Preguntando, Evento::Respuesta(Some(a))) => {
            let d = Decision::from_answer(a);
            (Etapa::Anotando(d), Accion::Anotar(d))
        },
        (Etapa::Anotando(d), Evento::Guardada(ok)) => if ok {
            (Etapa::Terminada, Accion::Contestar(d.is_allowed()))
        } else {
            (Etapa::Terminada, Accion::Fallar)
        },
        _ => (Etapa::Terminada, Accion::Fallar),
    }
}

/// What a question answered without asking anything says, and whether the
/// block has to be noted and the person told.
///
/// Out of its declared scope there is nothing to read: the answer is
/// `Denied`, as in [`empezar`]. Otherwise it is what is stored, and only an
/// `Unknown` is noted and notified: a `Denied` is the person's own decision,
/// and repeating a notice about something already answered is insisting.
pub open spec fn sin_preguntar(ruta: Seq<char>, id: Seq<char>, guardada: Decision) -> (
    Decision,
    bool,
) {
    if !puede_pedir(ruta, id) {
        (Decision::Denied, false)
    } else {
        (guardada, guardada == Decision::Unknown)
    }
}

/// Whether a question answered without asking needs to read the policy at
/// all: not when the resource is out of the program's scope.
pub fn lectura_necesaria(binary_path: &str, resource_id: &str) -> (r: bool)
    ensures
        r == puede_pedir(binary_path@, resource_id@),
{
    may_request(binary_path, resource_id)
}

/// The answer to a question asked without asking anyone, from what is stored.
pub fn contestar_sin_preguntar(binary_path: &str, resource_id: &str, guardada: Decision) -> (r: (
    Decision,
    bool,
))
    ensures
        r == sin_preguntar(binary_path@, resource_id@, guardada),
{
    if !may_request(binary_path, resource_id) {
        (Decision::Denied, false)
    } else {
        (guardada, guardada == Decision::Unknown)
    }
}

/// Nothing is allowed that nobody allowed: the only steps that answer "yes"
/// are reading an `Allowed` from the policy, and writing down an answer that
/// was `Allowed`.
pub proof fn solo_se_permite_lo_permitido(etapa: Etapa, evento: Evento)
    ensures
        transicion(etapa, evento).1 == Accion::Contestar(true) ==> (etapa == Etapa::Leyendo
            && evento == Evento::Leida(Some(Decision::Allowed))) || (etapa == Etapa::Anotando(
            Decision::Allowed,
        ) && evento == Evento::Guardada(true)),
{
}

/// What is written down is what the person answered, and only a real answer
/// is written down: no other step records anything.
pub proof fn se_anota_lo_contestado(etapa: Etapa, evento: Evento, d: Decision)
    ensures
        transicion(etapa, evento).1 == Accion::Anotar(d) ==> etapa == Etapa::Preguntando && exists|
            a: bool,
        |
            #![auto]
            evento == Evento::Respuesta(Some(a)) && d == (if a {
                Decision::Allowed
            } else {
                Decision::Denied
            }),
{
    if transicion(etapa, evento).1 == Accion::Anotar(d) {
        if let Evento::Respuesta(Some(a)) = evento {
            assert(evento == Evento::Respuesta(Some(a)));
        }
    }
}

/// The person is only asked after the policy said nothing and the throttle
/// let the question through; a program outside its scope is never asked
/// about.
pub proof fn solo_se_pregunta_con_cupo(etapa: Etapa, evento: Evento, ruta: Seq<char>, id: Seq<char>)
    ensures
        transicion(etapa, evento).1 == Accion::Preguntar ==> etapa == Etapa::PidiendoCupo && evento
            == Evento::Cupo(true),
        transicion(etapa, evento).1 == Accion::PedirCupo ==> etapa == Etapa::Leyendo && evento
            == Evento::Leida(Some(Decision::Unknown)),
        !puede_pedir(ruta, id) ==> inicio(ruta, id) == (Etapa::Terminada, Accion::Contestar(false)),
{
}

/// Every question ends: each step either answers or moves to a stage further
/// along, so no sequence of events goes round in circles.
pub open spec fn rango(etapa: Etapa) -> nat {
    match etapa {
        Etapa::Leyendo => 4,
        Etapa::PidiendoCupo => 3,
        Etapa::Preguntando => 2,
        Etapa::Anotando(_) => 1,
        Etapa::Terminada => 0,
    }
}

/// Each step goes forward: the stage after any event is further along than
/// the one before, unless the question was already answered.
pub proof fn cada_paso_avanza(etapa: Etapa, evento: Evento)
    ensures
        etapa != Etapa::Terminada ==> rango(transicion(etapa, evento).0) < rango(etapa),
        transicion(etapa, evento).0 == Etapa::Terminada <==> (match transicion(etapa, evento).1 {
            Accion::Contestar(_) | Accion::Fallar | Accion::DevolverCupoYNegar => true,
            _ => false,
        }),
{
}

/// A scope narrows and never grants: a program outside the list may ask for
/// anything, and the person decides; a program inside it, for a resource of
/// its scope, still gets what the stored policy or the person says, never a
/// "yes" for being listed.
pub proof fn el_alcance_acota_y_no_habilita(ruta: Seq<char>, id: Seq<char>)
    ensures
        crate::protocol::alcance(ruta) is None ==> puede_pedir(ruta, id),
        puede_pedir(ruta, id) ==> inicio(ruta, id) == (Etapa::Leyendo, Accion::LeerPolitica),
{
}

/// The settings screen manages the accounts and does not use them: its scope
/// is empty, so it cannot ask for any resource at all, and a replaced
/// settings binary reaches no token and cannot even put up a dialog.
pub proof fn la_configuracion_no_pide_nada(id: Seq<char>)
    ensures
        !puede_pedir("/usr/bin/vasak-settings"@, id),
        inicio("/usr/bin/vasak-settings"@, id) == (Etapa::Terminada, Accion::Contestar(false)),
{
    reveal_strlit("/usr/bin/vasak-file-manager");
    reveal_strlit("/usr/bin/vasak-settings");
    let t = crate::protocol::tabla_de_alcances();
    let ruta = "/usr/bin/vasak-settings"@;
    assert(t[0].0 == "/usr/bin/vasak-file-manager"@);
    assert(t[0].0.len() != ruta.len());
    assert(t[1].0 == ruta);
    assert(crate::protocol::alcance_desde(t, ruta, 1) == Some(Seq::<Seq<char>>::empty()));
    assert(crate::protocol::alcance(ruta) == Some(Seq::<Seq<char>>::empty()));
}

/// Records a change from the settings screen in the policy, and gives back
/// what the program had allowed among the resources the AppArmor profiles
/// deny, before and after, so the profile can be rewritten and, if saving
/// fails, put back. `false` for where the answer came from: this is the
/// screen setting a decision, not the program asking; a program that asked
/// before stays one that asks.
pub fn preparar_cambio(
    policy: &mut UserPolicy,
    application: &Application,
    resource_id: &str,
    allowed: bool,
) -> (r: (Vec<Resource>, Vec<Resource>))
    requires
        old(policy).bien_formada(),
    ensures
        final(policy).bien_formada(),
        final(policy)@ == anotada(
            old(policy)@,
            application.binary_path@,
            application.display_name@,
            application.provenance,
            resource_id@,
            if allowed {
                Decision::Allowed
            } else {
                Decision::Denied
            },
            false,
        ),
        r.0@ == permitidos(old(policy)@, application.binary_path@),
        r.1@ == permitidos(final(policy)@, application.binary_path@),
{
    let antes = permitidos_de(policy, application.binary_path.as_str());
    policy.record(application, resource_id, Decision::from_answer(allowed), false);
    let ahora = permitidos_de(policy, application.binary_path.as_str());
    (antes, ahora)
}

/// Where a change from the settings screen stands once the policy has been
/// updated in memory.
#[derive(Debug, Clone, Copy, PartialEq, Eq, Structural)]
pub enum Cambio {
    /// Rewriting the exception profile with what is allowed now.
    Aplicando,
    /// Saving the policy file.
    Guardando,
    /// Putting the profile back as it was.
    Deshaciendo,
    Terminado,
}

/// What to do next with a change.
#[derive(Debug, Clone, Copy, PartialEq, Eq, Structural)]
pub enum PasoDelCambio {
    /// Save the policy file.
    Guardar,
    /// Rewrite the profile with what was allowed before.
    Deshacer,
    /// Answer that the change was made.
    Listo,
    /// Answer that the decision was not saved because it could not be
    /// applied; nothing was saved.
    NoSeAplico,
    /// Answer with the error of the save.
    NoSeGuardo,
}

/// The profile first, then the decisions file. Saving first, a failure to
/// apply would leave a decision written that the system does not enforce.
/// Applying first, a failure leaves everything as it was; and if what fails
/// is the save, the profile is put back so the kernel and the disk do not
/// say different things.
pub open spec fn paso_del_cambio(c: Cambio, salio_bien: bool) -> (Cambio, PasoDelCambio) {
    match c {
        Cambio::Aplicando => if salio_bien {
            (Cambio::Guardando, PasoDelCambio::Guardar)
        } else {
            (Cambio::Terminado, PasoDelCambio::NoSeAplico)
        },
        Cambio::Guardando => if salio_bien {
            (Cambio::Terminado, PasoDelCambio::Listo)
        } else {
            (Cambio::Deshaciendo, PasoDelCambio::Deshacer)
        },
        Cambio::Deshaciendo => (Cambio::Terminado, PasoDelCambio::NoSeGuardo),
        Cambio::Terminado => (Cambio::Terminado, PasoDelCambio::NoSeGuardo),
    }
}

/// The next step of a change, given whether the last one went well.
pub fn avanzar_cambio(c: Cambio, salio_bien: bool) -> (r: (Cambio, PasoDelCambio))
    ensures
        r == paso_del_cambio(c, salio_bien),
{
    match c {
        Cambio::Aplicando => if salio_bien {
            (Cambio::Guardando, PasoDelCambio::Guardar)
        } else {
            (Cambio::Terminado, PasoDelCambio::NoSeAplico)
        },
        Cambio::Guardando => if salio_bien {
            (Cambio::Terminado, PasoDelCambio::Listo)
        } else {
            (Cambio::Deshaciendo, PasoDelCambio::Deshacer)
        },
        Cambio::Deshaciendo => (Cambio::Terminado, PasoDelCambio::NoSeGuardo),
        Cambio::Terminado => (Cambio::Terminado, PasoDelCambio::NoSeGuardo),
    }
}

/// A decision is never saved that the system does not enforce: the policy is
/// only saved right after the profile was applied, a change is only reported
/// done right after it was saved, and a failed save is always followed by
/// putting the profile back.
pub proof fn solo_se_guarda_lo_aplicado(c: Cambio, salio_bien: bool)
    ensures
        paso_del_cambio(c, salio_bien).1 == PasoDelCambio::Guardar ==> c == Cambio::Aplicando && salio_bien,
        paso_del_cambio(c, salio_bien).1 == PasoDelCambio::Listo ==> c == Cambio::Guardando && salio_bien,
        c == Cambio::Guardando && !salio_bien ==> paso_del_cambio(c, salio_bien).1 == PasoDelCambio::Deshacer,
{
}

/// A question answered without asking anyone notes the block and tells the
/// person exactly when the program may ask for the resource and nothing was
/// decided yet: never for something the person allowed or refused, never out
/// of scope. The answer is what is stored, and a refusal out of scope.
pub proof fn solo_se_avisa_lo_no_decidido(ruta: Seq<char>, id: Seq<char>, d: Decision)
    ensures
        sin_preguntar(ruta, id, d).1 == (puede_pedir(ruta, id) && d == Decision::Unknown),
        sin_preguntar(ruta, id, d).0 == (if puede_pedir(ruta, id) {
            d
        } else {
            Decision::Denied
        }),
        d == Decision::Allowed ==> !sin_preguntar(ruta, id, d).1,
        d == Decision::Denied ==> !sin_preguntar(ruta, id, d).1,
{
}

} // verus!
