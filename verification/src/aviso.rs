//! The notice that AppArmor blocked something: which icon it carries, which
//! blocks it is given for, and its text with the application's name put in.
//!
//! It asks nothing and decides nothing: the block already happened. Showing
//! the notification is done by the dialog agent.
use vstd::prelude::*;
use crate::protocol::Resource;
use crate::texto::{cadena, caracteres, iguales, reemplazar, reemplazar_todo};

verus! {

broadcast use vstd::string::group_string_axioms;

/// The icon of each resource, by its name in the icon theme.
pub open spec fn icono(resource_id: Seq<char>) -> Seq<char> {
    if resource_id == "microphone"@ {
        "audio-input-microphone"@
    } else if resource_id == "credentials"@ {
        "dialog-password"@
    } else if resource_id == "file"@ {
        "dialog-warning"@
    } else {
        "camera-web"@
    }
}

pub fn icono_de(resource_id: &str) -> (r: &'static str)
    ensures
        r@ == icono(resource_id@),
{
    let id = caracteres(resource_id);
    if iguales(id.as_slice(), caracteres("microphone").as_slice()) {
        "audio-input-microphone"
    } else if iguales(id.as_slice(), caracteres("credentials").as_slice()) {
        "dialog-password"
    } else if iguales(id.as_slice(), caracteres("file").as_slice()) {
        "dialog-warning"
    } else {
        "camera-web"
    }
}

/// Whether a notice is about something the agent knows how to talk about: a
/// blocked file, or a resource the AppArmor profiles deny. The method that
/// receives notices is on the system bus, so anybody could call it; without
/// this, anyone could make a notification with VasakOS's name and any text.
pub open spec fn avisable(resource_id: Seq<char>) -> bool {
    resource_id == "file"@ || Resource::desde_id(resource_id) == Some(Resource::Camera)
        || Resource::desde_id(resource_id) == Some(Resource::Microphone) || Resource::desde_id(
        resource_id,
    ) == Some(Resource::Credentials)
}

pub fn se_avisa_de(resource_id: &str) -> (r: bool)
    ensures
        r == avisable(resource_id@),
{
    if iguales(caracteres(resource_id).as_slice(), caracteres("file").as_slice()) {
        return true;
    }
    match Resource::from_id(resource_id) {
        Some(Resource::Camera) | Some(Resource::Microphone) | Some(Resource::Credentials) => true,
        _ => false,
    }
}

/// The notice's text: the template with the application's name in place of
/// every `{0}`.
pub fn texto(plantilla: &str, nombre_de_la_app: &str) -> (r: String)
    ensures
        r@ == reemplazar(plantilla@, "{0}"@, nombre_de_la_app@),
{
    let marca = caracteres("{0}");
    proof {
        reveal_strlit("{0}");
    }
    let t = reemplazar_todo(
        caracteres(plantilla).as_slice(),
        marca.as_slice(),
        caracteres(nombre_de_la_app).as_slice(),
    );
    cadena(t.as_slice())
}

/// The same, with a second piece: the path that was blocked, in place of every
/// `{1}` once the name is in.
pub fn texto_con_detalle(plantilla: &str, nombre_de_la_app: &str, detalle: &str) -> (r: String)
    ensures
        r@ == reemplazar(reemplazar(plantilla@, "{0}"@, nombre_de_la_app@), "{1}"@, detalle@),
{
    proof {
        reveal_strlit("{0}");
        reveal_strlit("{1}");
    }
    let con_nombre = reemplazar_todo(
        caracteres(plantilla).as_slice(),
        caracteres("{0}").as_slice(),
        caracteres(nombre_de_la_app).as_slice(),
    );
    let t = reemplazar_todo(
        con_nombre.as_slice(),
        caracteres("{1}").as_slice(),
        caracteres(detalle).as_slice(),
    );
    cadena(t.as_slice())
}

} // verus!
