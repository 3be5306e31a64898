//! What the service needs to ask polkit whether the person may change the
//! stored permissions: the start time of the process that asked, so polkit
//! authenticates that process and not whatever inherits its number.
//!
//! Asking polkit is a call on the bus, made by the program around this
//! library.
use vstd::prelude::*;
use crate::texto::{leer_hasta, leer_natural, palabras_de, trozos, tramo, ultima, ultima_hasta};

verus! {

/// The start time of a process, field 22 of its `/proc/<pid>/stat` line, in
/// clock ticks.
///
/// Read from the last `)` on, because field 2 is the executable's name in
/// brackets and may itself hold spaces or brackets: splitting the whole line
/// on whitespace would misplace every field after it. After the bracket the
/// fields are 3 onwards, so the start time is the twentieth word there.
pub open spec fn momento_de_arranque(stat: Seq<char>) -> Option<nat> {
    match ultima(stat, ')') {
        None => None,
        Some(i) => {
            let palabras = palabras_de(stat.subrange(i + 1, stat.len() as int));
            if palabras.len() > 19 {
                leer_hasta(palabras[19], u64::MAX as nat)
            } else {
                None
            }
        },
    }
}

/// The last position of `c` in `s`.
fn buscar_ultimo(s: &[char], c: char) -> (r: Option<usize>)
    ensures
        match r {
            Some(i) => ultima(s@, c) == Some(i as int) && i < s.len(),
            None => ultima(s@, c) is None,
        },
{
    let mut hasta: usize = s.len();
    while hasta > 0
        invariant
            hasta <= s.len(),
            ultima(s@, c) == ultima_hasta(s@, c, hasta as int),
        decreases hasta,
    {
        if s[hasta - 1] == c {
            return Some(hasta - 1);
        }
        hasta = hasta - 1;
    }
    None
}

/// The start time in a `/proc/<pid>/stat` line, or nothing when the line is
/// not one: a truncated line is rejected rather than guessed.
pub fn parse_start_time(stat: &str) -> (r: Option<u64>)
    ensures
        match r {
            Some(v) => momento_de_arranque(stat@) == Some(v as nat),
            None => momento_de_arranque(stat@) is None,
        },
{
    let s = crate::texto::caracteres(stat);
    let i = match buscar_ultimo(s.as_slice(), ')') {
        Some(i) => i,
        None => return None,
    };
    let resto = tramo(s.as_slice(), i + 1, s.len());
    let palabras = trozos(resto.as_slice(), true);
    if palabras.len() <= 19 {
        return None;
    }
    assert(palabras@.map_values(|l: Vec<char>| l@)[19] == palabras@[19]@);
    leer_natural(palabras[19].as_slice(), 0xffff_ffff_ffff_ffff)
}

} // verus!
