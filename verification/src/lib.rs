//! The VasakOS permission service: which program may use which resource, what
//! the person answered, and the rules that keep those answers meaningful.
use vstd::prelude::*;

pub mod texto;
pub mod tabla;
pub mod protocol;
pub mod policy;
pub mod throttle;
pub mod agent;
pub mod servicio;
pub mod excepcion;
pub mod audit;
pub mod orden;
pub mod auditnl;
pub mod local;
pub mod polkit;
pub mod identity;
pub mod procesos;
pub mod aviso;
pub mod locales;
pub mod agente;
pub mod portal;
pub mod capturas;
