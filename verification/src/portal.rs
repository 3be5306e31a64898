//! The names and codes the dialog agent's desktop-portal backends answer
//! with.
use vstd::prelude::*;

verus! {

/// The backend's well-known name on the session bus.
pub const BACKEND_NAME: &'static str = "org.freedesktop.impl.portal.desktop.vasak";

/// Where the backend answers, which is where the wlroots backend it forwards
/// screen casts to answers too.
pub const BACKEND_PATH: &'static str = "/org/freedesktop/portal/desktop";

pub const WLR_NAME: &'static str = "org.freedesktop.impl.portal.desktop.wlr";

pub const WLR_PATH: &'static str = "/org/freedesktop/portal/desktop";

/// The portal's response codes: granted, cancelled by the person, and failed.
pub const RESPONSE_GRANTED: u32 = 0;

pub const RESPONSE_CANCELLED: u32 = 1;

pub const RESPONSE_ERROR: u32 = 2;

/// The capture-indicator service's object path and interface.
pub const RUTA_DE_CAPTURAS: &'static str = "/ar/net/vasak/os/Captura";

pub const INTERFAZ_DE_CAPTURAS: &'static str = "ar.net.vasak.os.Captura";

} // verus!
