//! Reading denials from the audit netlink socket rather than from the kernel
//! log, which drops most audit records under its rate limit.
//!
//! The socket itself is opened and read by the program around this library;
//! what is decided here is which bytes of a netlink message are the text of
//! an audit record. It is offset arithmetic, which is exactly where one goes
//! wrong. The text has the same shape as the kernel log line from
//! `audit(<seconds>.<millis>:<serial>):` on, so the same parser reads it.
use vstd::prelude::*;
use vstd::utf8::{decode_utf8, valid_utf8};
use crate::audit::{lectura, parsear, Denegacion};
use crate::orden::{leer16, leer32, leer_u16, leer_u32, orden_de_la_maquina};

verus! {

/// Below this are netlink control messages (`NLMSG_ERROR`, `NLMSG_DONE`), not
/// audit records.
pub const PRIMER_TIPO_DE_EVENTO: u16 = 1300;

/// The `nlmsghdr` header: length, type, flags, sequence and pid.
pub const CABECERA: usize = 16;

/// `std::str::from_utf8`: the text the bytes encode, when they are valid
/// UTF-8, and nothing otherwise.
#[verifier::external_body]
fn texto_utf8(b: &[u8]) -> (r: Option<&str>)
    ensures
        match r {
            Some(s) => valid_utf8(b@) && s@ == decode_utf8(b@),
            None => !valid_utf8(b@),
        },
{
    std::str::from_utf8(b).ok()
}

/// The bytes of the record text in a message whose header declares `largo`
/// and `tipo`: none for a message shorter than its header, a control message
/// or a length shorter than the header; otherwise from the end of the header
/// up to the declared length, cut to what actually arrived. The length is
/// written by the sender, and believing it would read past the message.
pub open spec fn cuerpo_de(m: Seq<u8>, largo: u32, tipo: u16) -> Option<Seq<u8>> {
    if m.len() < CABECERA || tipo < PRIMER_TIPO_DE_EVENTO || largo < CABECERA {
        None
    } else {
        let fin = if (largo as int) < m.len() {
            largo as int
        } else {
            m.len() as int
        };
        Some(m.subrange(CABECERA as int, fin))
    }
}

/// The text of the record, when the bytes are valid UTF-8.
pub open spec fn texto_de_cuerpo(m: Seq<u8>, largo: u32, tipo: u16) -> Option<Seq<char>> {
    match cuerpo_de(m, largo, tipo) {
        Some(b) => if valid_utf8(b) {
            Some(decode_utf8(b))
        } else {
            None
        },
        None => None,
    }
}

/// The text of an audit record, given the length and the type its header
/// declares.
pub fn texto_de_registro(mensaje: &[u8], largo: u32, tipo: u16) -> (r: Option<&str>)
    ensures
        match r {
            Some(s) => texto_de_cuerpo(mensaje@, largo, tipo) == Some(s@),
            None => texto_de_cuerpo(mensaje@, largo, tipo) is None,
        },
{
    if mensaje.len() < CABECERA {
        return None;
    }
    if tipo < PRIMER_TIPO_DE_EVENTO {
        return None;
    }
    if (largo as usize) < CABECERA {
        return None;
    }
    let fin: usize = if (largo as usize) < mensaje.len() {
        largo as usize
    } else {
        mensaje.len()
    };
    let cuerpo = &mensaje[CABECERA..fin];
    assert(cuerpo@ =~= mensaje@.subrange(CABECERA as int, fin as int));
    texto_utf8(cuerpo)
}

/// The text of the audit record in `m` when its header is in the byte order
/// `le` (little-endian when true): the length and the type are read in that
/// one order. None for a message shorter than its header.
pub open spec fn texto_segun(m: Seq<u8>, le: bool) -> Option<Seq<char>> {
    if m.len() < CABECERA {
        None
    } else {
        texto_de_cuerpo(m, leer32(m, 0, le) as u32, leer16(m, 4, le) as u16)
    }
}

/// The text of the audit record in a message whose header is in the byte
/// order `le`, if the message is one.
pub fn texto_en_orden(mensaje: &[u8], le: bool) -> (r: Option<&str>)
    ensures
        match r {
            Some(s) => texto_segun(mensaje@, le) == Some(s@),
            None => texto_segun(mensaje@, le) is None,
        },
{
    if mensaje.len() < CABECERA {
        return None;
    }
    let largo = leer_u32(mensaje, 0, le);
    let tipo = leer_u16(mensaje, 4, le);
    texto_de_registro(mensaje, largo, tipo)
}

/// The text of an audit record, if the message is one. The kernel writes the
/// header in the machine's byte order, which is learned once and used for
/// both fields.
pub fn texto_de_mensaje(mensaje: &[u8]) -> (r: Option<&str>)
    ensures
        mensaje@.len() < CABECERA ==> r is None,
        exists|le: bool|
            match r {
                Some(s) => texto_segun(mensaje@, le) == Some(s@),
                None => texto_segun(mensaje@, le) is None,
            },
{
    let le = orden_de_la_maquina();
    texto_en_orden(mensaje, le)
}

/// Whether a message read from the audit socket is believed at all. A
/// netlink socket also receives messages from **other processes** that know
/// its port: only the kernel's, which arrive with `nl_pid` zero, are taken, or
/// anyone could make up a denial and have the person told of a block that
/// never happened, blamed on the application of their choosing. A truncated
/// message is dropped whole: what is left cannot be trusted, and reading it
/// half would read fields of another message.
pub fn mensaje_creible(nl_pid: u32, truncado: bool) -> (r: bool)
    ensures
        r == (nl_pid == 0 && !truncado),
{
    nl_pid == 0 && !truncado
}

/// The denial a datagram from the audit socket holds when its header is in
/// the byte order `le`: none unless the kernel sent it whole, and otherwise
/// what reading the record's text gives.
pub fn denegacion_en_orden(mensaje: &[u8], nl_pid: u32, truncado: bool, le: bool) -> (r: Option<
    Denegacion,
>)
    ensures
        !(nl_pid == 0 && !truncado) ==> r is None,
        nl_pid == 0 && !truncado ==> match texto_segun(mensaje@, le) {
            None => r is None,
            Some(t) => lectura(t, r),
        },
{
    if !mensaje_creible(nl_pid, truncado) {
        return None;
    }
    match texto_en_orden(mensaje, le) {
        None => None,
        Some(texto) => parsear(texto),
    }
}

/// The denial a datagram from the audit socket holds, its header read in the
/// machine's byte order: only a whole message from the kernel is believed.
pub fn denegacion_de_datagrama(mensaje: &[u8], nl_pid: u32, truncado: bool) -> (r: Option<
    Denegacion,
>)
    ensures
        !(nl_pid == 0 && !truncado) ==> r is None,
        exists|le: bool|
            #![trigger texto_segun(mensaje@, le)]
            nl_pid == 0 && !truncado ==> match texto_segun(mensaje@, le) {
                None => r is None,
                Some(t) => lectura(t, r),
            },
{
    let le = orden_de_la_maquina();
    denegacion_en_orden(mensaje, nl_pid, truncado, le)
}

/// A declared length longer than what arrived never reads past the message:
/// whatever the header says, the text comes from inside the message.
pub proof fn un_largo_inflado_no_se_cree(m: Seq<u8>, largo: u32, tipo: u16)
    ensures
        match cuerpo_de(m, largo, tipo) {
            Some(b) => CABECERA + b.len() <= m.len() && b == m.subrange(
                CABECERA as int,
                CABECERA + b.len(),
            ),
            None => true,
        },
{
}

} // verus!
