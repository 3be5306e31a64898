//! Text as sequences of characters: the handful of operations the rest of the
//! library is written with, each stated over `Seq<char>`.
use vstd::prelude::*;

verus! {

broadcast use vstd::string::group_string_axioms;

/// `s` begins with `p`.
pub open spec fn empieza_con(s: Seq<char>, p: Seq<char>) -> bool {
    p.len() <= s.len() && s.subrange(0, p.len() as int) == p
}

/// `s` ends with `p`.
pub open spec fn termina_con(s: Seq<char>, p: Seq<char>) -> bool {
    p.len() <= s.len() && s.subrange(s.len() - p.len(), s.len() as int) == p
}

/// `p` occurs in `s` starting at position `i`.
pub open spec fn aparece_en(s: Seq<char>, p: Seq<char>, i: int) -> bool {
    0 <= i && i + p.len() <= s.len() && s.subrange(i, i + p.len()) == p
}

/// The first position at or after `desde` where `p` occurs in `s`.
pub open spec fn primera_desde(s: Seq<char>, p: Seq<char>, desde: int) -> Option<int>
    decreases s.len() + 1 - desde,
{
    if desde < 0 || desde + p.len() > s.len() {
        None
    } else if aparece_en(s, p, desde) {
        Some(desde)
    } else {
        primera_desde(s, p, desde + 1)
    }
}

/// The first position where `p` occurs in `s`, as `str::find` gives it.
pub open spec fn primera(s: Seq<char>, p: Seq<char>) -> Option<int> {
    primera_desde(s, p, 0)
}

/// `p` occurs somewhere in `s`.
pub open spec fn contiene(s: Seq<char>, p: Seq<char>) -> bool {
    primera(s, p) is Some
}

/// The last position of `c` in `s`.
pub open spec fn ultima_hasta(s: Seq<char>, c: char, hasta: int) -> Option<int>
    decreases hasta,
{
    if hasta <= 0 || hasta > s.len() {
        None
    } else if s[hasta - 1] == c {
        Some(hasta - 1)
    } else {
        ultima_hasta(s, c, hasta - 1)
    }
}

pub open spec fn ultima(s: Seq<char>, c: char) -> Option<int> {
    ultima_hasta(s, c, s.len() as int)
}

pub open spec fn es_digito(c: char) -> bool {
    '0' <= c && c <= '9'
}

pub open spec fn es_alfanumerico_ascii(c: char) -> bool {
    ('0' <= c && c <= '9') || ('a' <= c && c <= 'z') || ('A' <= c && c <= 'Z')
}

/// `char::is_whitespace`: the characters with the Unicode `White_Space`
/// property.
pub open spec fn es_espacio(c: char) -> bool {
    ('\u{9}' <= c && c <= '\u{d}') || c == ' ' || c == '\u{85}' || c == '\u{a0}' || c
        == '\u{1680}' || ('\u{2000}' <= c && c <= '\u{200a}') || c == '\u{2028}' || c
        == '\u{2029}' || c == '\u{202f}' || c == '\u{205f}' || c == '\u{3000}'
}

pub open spec fn todos_digitos(s: Seq<char>) -> bool {
    forall|i: int| 0 <= i < s.len() ==> es_digito(#[trigger] s[i])
}

/// The number a run of decimal digits stands for.
pub open spec fn valor_decimal(s: Seq<char>) -> nat
    decreases s.len(),
{
    if s.len() == 0 {
        0
    } else {
        valor_decimal(s.drop_last()) * 10 + ((s.last() as int - '0' as int) as nat)
    }
}

/// What `str::parse` reads as an unsigned number, before the range check: an
/// optional `+`, then one or more decimal digits.
pub open spec fn numero_natural(s: Seq<char>) -> Option<nat> {
    let d = if s.len() > 0 && s[0] == '+' {
        s.drop_first()
    } else {
        s
    };
    if d.len() == 0 || !todos_digitos(d) {
        None
    } else {
        Some(valor_decimal(d))
    }
}

/// The character of a decimal digit.
pub open spec fn digito(d: nat) -> char {
    if d == 0 {
        '0'
    } else if d == 1 {
        '1'
    } else if d == 2 {
        '2'
    } else if d == 3 {
        '3'
    } else if d == 4 {
        '4'
    } else if d == 5 {
        '5'
    } else if d == 6 {
        '6'
    } else if d == 7 {
        '7'
    } else if d == 8 {
        '8'
    } else {
        '9'
    }
}

/// A number written in decimal, as `format!("{n}")` writes it: no sign, no
/// leading zeros, and `0` for zero.
pub open spec fn decimal(n: nat) -> Seq<char>
    decreases n,
{
    if n < 10 {
        seq![digito(n)]
    } else {
        decimal(n / 10).push(digito(n % 10))
    }
}

proof fn lema_valor_de_digito(d: nat)
    requires
        d < 10,
    ensures
        es_digito(digito(d)),
        digito(d) as int - '0' as int == d,
{
}

/// Reading back what `decimal` wrote gives the number again.
pub proof fn lema_decimal_se_relee(n: nat)
    ensures
        todos_digitos(decimal(n)),
        decimal(n).len() > 0,
        valor_decimal(decimal(n)) == n,
    decreases n,
{
    lema_valor_de_digito(n % 10);
    if n >= 10 {
        lema_decimal_se_relee(n / 10);
        let s = decimal(n);
        assert(s.drop_last() =~= decimal(n / 10));
        assert(s.last() == digito(n % 10));
        assert((n / 10) * 10 + n % 10 == n) by (nonlinear_arith);
    } else {
        let s = decimal(n);
        assert(s.drop_last() =~= Seq::<char>::empty());
        assert(valor_decimal(s.drop_last()) == 0);
    }
}

/// Two numbers are written the same only if they are the same number.
pub proof fn lema_decimal_inyectivo(a: nat, b: nat)
    requires
        decimal(a) == decimal(b),
    ensures
        a == b,
{
    lema_decimal_se_relee(a);
    lema_decimal_se_relee(b);
}

/// The character of the digit `d`.
fn caracter_de_digito(d: u64) -> (c: char)
    requires
        d < 10,
    ensures
        c == digito(d as nat),
{
    if d == 0 {
        '0'
    } else if d == 1 {
        '1'
    } else if d == 2 {
        '2'
    } else if d == 3 {
        '3'
    } else if d == 4 {
        '4'
    } else if d == 5 {
        '5'
    } else if d == 6 {
        '6'
    } else if d == 7 {
        '7'
    } else if d == 8 {
        '8'
    } else {
        '9'
    }
}

/// `n` written in decimal.
pub fn en_decimal(n: u64) -> (r: Vec<char>)
    ensures
        r@ == decimal(n as nat),
    decreases n,
{
    if n < 10 {
        let mut r: Vec<char> = Vec::new();
        r.push(caracter_de_digito(n));
        proof {
            assert(r@ =~= seq![digito(n as nat)]);
        }
        r
    } else {
        let mut r = en_decimal(n / 10);
        r.push(caracter_de_digito(n % 10));
        r
    }
}

/// How many decimal digits `s` begins with.
pub open spec fn prefijo_numerico(s: Seq<char>) -> nat
    decreases s.len(),
{
    if s.len() == 0 || !es_digito(s[0]) {
        0
    } else {
        1 + prefijo_numerico(s.drop_first())
    }
}

/// A run of digits followed by the end or by something else is the digit
/// prefix.
pub proof fn lema_prefijo_numerico(s: Seq<char>, n: int)
    requires
        0 <= n <= s.len(),
        todos_digitos(s.take(n)),
        n == s.len() || !es_digito(s[n]),
    ensures
        prefijo_numerico(s) == n,
    decreases n,
{
    if n > 0 {
        assert(s.take(n)[0] == s[0]);
        let t = s.drop_first();
        assert forall|i: int| 0 <= i < n - 1 implies es_digito(#[trigger] t.take(n - 1)[i]) by {
            assert(t.take(n - 1)[i] == s.take(n)[i + 1]);
        }
        if n < s.len() {
            assert(t[n - 1] == s[n]);
        }
        lema_prefijo_numerico(t, n - 1);
    }
}

/// How many decimal digits `s` begins with.
pub fn digitos_al_principio(s: &[char]) -> (n: usize)
    ensures
        n == prefijo_numerico(s@),
        n <= s.len(),
        todos_digitos(s@.take(n as int)),
{
    let mut n: usize = 0;
    while n < s.len() && '0' <= s[n] && s[n] <= '9'
        invariant
            n <= s.len(),
            todos_digitos(s@.take(n as int)),
        decreases s.len() - n,
    {
        assert forall|i: int| 0 <= i < n + 1 implies es_digito(#[trigger] s@.take(n + 1)[i]) by {
            if i < n {
                assert(s@.take(n + 1)[i] == s@.take(n as int)[i]);
            }
        }
        n = n + 1;
    }
    proof {
        lema_prefijo_numerico(s@, n as int);
    }
    n
}

/// Adding digits never makes a number smaller.
proof fn lema_valor_creciente(s: Seq<char>, i: int)
    requires
        0 <= i <= s.len(),
        todos_digitos(s),
    ensures
        valor_decimal(s.take(i)) <= valor_decimal(s),
    decreases s.len() - i,
{
    if i < s.len() {
        lema_valor_creciente(s, i + 1);
        let t = s.take(i + 1);
        assert(t.drop_last() =~= s.take(i));
        assert(es_digito(s[i]));
        assert(valor_decimal(t) == valor_decimal(s.take(i)) * 10 + (t.last() as int - '0' as int));
    } else {
        assert(s.take(i) =~= s);
    }
}

/// What `str::parse` gives for an unsigned number no greater than `tope`.
pub open spec fn leer_hasta(s: Seq<char>, tope: nat) -> Option<nat> {
    match numero_natural(s) {
        Some(v) => if v <= tope {
            Some(v)
        } else {
            None
        },
        None => None,
    }
}

/// Reads an unsigned decimal number no greater than `tope`, as `str::parse`
/// does: an optional `+`, then one or more digits and nothing else.
pub fn leer_natural(s: &[char], tope: u64) -> (r: Option<u64>)
    ensures
        match r {
            Some(v) => leer_hasta(s@, tope as nat) == Some(v as nat),
            None => leer_hasta(s@, tope as nat) is None,
        },
{
    let inicio: usize = if s.len() > 0 && s[0] == '+' {
        1
    } else {
        0
    };
    let ghost d = if s@.len() > 0 && s@[0] == '+' {
        s@.drop_first()
    } else {
        s@
    };
    assert(d =~= s@.subrange(inicio as int, s@.len() as int));
    if inicio == s.len() {
        return None;
    }
    let mut valor: u64 = 0;
    let mut i: usize = inicio;
    while i < s.len()
        invariant
            inicio <= i <= s.len(),
            d == s@.subrange(inicio as int, s@.len() as int),
            d == (if s@.len() > 0 && s@[0] == '+' {
                s@.drop_first()
            } else {
                s@
            }),
            d.len() > 0,
            todos_digitos(d.take(i - inicio)),
            valor == valor_decimal(d.take(i - inicio)),
            valor <= tope,
        decreases s.len() - i,
    {
        let c = s[i];
        if !('0' <= c && c <= '9') {
            assert(d[i - inicio] == c);
            assert(!todos_digitos(d));
            return None;
        }
        let digito_: u64 = if c == '0' {
            0
        } else if c == '1' {
            1
        } else if c == '2' {
            2
        } else if c == '3' {
            3
        } else if c == '4' {
            4
        } else if c == '5' {
            5
        } else if c == '6' {
            6
        } else if c == '7' {
            7
        } else if c == '8' {
            8
        } else {
            9
        };
        assert(digito_ == c as int - '0' as int);
        let ghost t = d.take(i + 1 - inicio);
        assert(t.drop_last() =~= d.take(i - inicio));
        assert(t.last() == c);
        assert forall|j: int| 0 <= j < t.len() implies es_digito(#[trigger] t[j]) by {
            if j < t.len() - 1 {
                assert(t[j] == d.take(i - inicio)[j]);
            }
        }
        let siguiente: u128 = (valor as u128) * 10 + (digito_ as u128);
        if siguiente > tope as u128 {
            proof {
                assert(valor_decimal(t) > tope);
                if todos_digitos(d) {
                    lema_valor_creciente(d, i + 1 - inicio);
                }
            }
            return None;
        }
        valor = siguiente as u64;
        i = i + 1;
    }
    assert(d.take(i - inicio) =~= d);
    Some(valor)
}

/// What `primera_desde` finds: the first occurrence at or after `desde`, or
/// none at all.
pub proof fn lema_primera_desde(s: Seq<char>, p: Seq<char>, desde: int)
    requires
        0 <= desde,
    ensures
        match primera_desde(s, p, desde) {
            Some(i) => desde <= i && i + p.len() <= s.len() && aparece_en(s, p, i) && forall|j: int|
                desde <= j < i ==> !#[trigger] aparece_en(s, p, j),
            None => forall|j: int| desde <= j ==> !#[trigger] aparece_en(s, p, j),
        },
    decreases s.len() + 1 - desde,
{
    if desde + p.len() <= s.len() && !aparece_en(s, p, desde) {
        lema_primera_desde(s, p, desde + 1);
    }
}

/// Whether every character of `v` is a decimal digit.
pub fn son_digitos(v: &[char]) -> (r: bool)
    ensures
        r == todos_digitos(v@),
{
    let mut k: usize = 0;
    while k < v.len()
        invariant
            k <= v.len(),
            forall|j: int| 0 <= j < k ==> es_digito(#[trigger] v@[j]),
        decreases v.len() - k,
    {
        if !('0' <= v[k] && v[k] <= '9') {
            assert(!es_digito(v@[k as int]));
            return false;
        }
        k = k + 1;
    }
    true
}

/// A line without the `\r` of a `\r\n` ending.
pub open spec fn sin_retorno(l: Seq<char>) -> Seq<char> {
    if l.len() > 0 && l.last() == '\r' {
        l.drop_last()
    } else {
        l
    }
}

/// The lines of `s` from here on, `actual` being the part of the current line
/// already read: each `\n` ends a line and is not part of it, a `\r` right
/// before it goes too, and a last line without `\n` counts unless it is empty.
pub open spec fn lineas_con(s: Seq<char>, actual: Seq<char>) -> Seq<Seq<char>>
    decreases s.len(),
{
    if s.len() == 0 {
        if actual.len() == 0 {
            Seq::empty()
        } else {
            seq![actual]
        }
    } else if s[0] == '\n' {
        seq![sin_retorno(actual)] + lineas_con(s.drop_first(), Seq::empty())
    } else {
        lineas_con(s.drop_first(), actual.push(s[0]))
    }
}

/// `str::lines`.
pub open spec fn lineas_de(s: Seq<char>) -> Seq<Seq<char>> {
    lineas_con(s, Seq::empty())
}

/// `s` without the whitespace it begins with.
pub open spec fn sin_espacios_al_principio(s: Seq<char>) -> Seq<char>
    decreases s.len(),
{
    if s.len() > 0 && es_espacio(s[0]) {
        sin_espacios_al_principio(s.drop_first())
    } else {
        s
    }
}

/// `s` without the whitespace it ends with.
pub open spec fn sin_espacios_al_final(s: Seq<char>) -> Seq<char>
    decreases s.len(),
{
    if s.len() > 0 && es_espacio(s.last()) {
        sin_espacios_al_final(s.drop_last())
    } else {
        s
    }
}

/// `str::trim`: without whitespace at either end.
pub open spec fn recortar(s: Seq<char>) -> Seq<char> {
    sin_espacios_al_final(sin_espacios_al_principio(s))
}

/// Whether `c` is whitespace, as `char::is_whitespace` says.
pub fn es_blanco(c: char) -> (r: bool)
    ensures
        r == es_espacio(c),
{
    ('\u{9}' <= c && c <= '\u{d}') || c == ' ' || c == '\u{85}' || c == '\u{a0}' || c == '\u{1680}'
        || ('\u{2000}' <= c && c <= '\u{200a}') || c == '\u{2028}' || c == '\u{2029}' || c
        == '\u{202f}' || c == '\u{205f}' || c == '\u{3000}'
}

proof fn lema_principio(s: Seq<char>, i: int)
    requires
        0 <= i <= s.len(),
        forall|j: int| 0 <= j < i ==> es_espacio(#[trigger] s[j]),
    ensures
        sin_espacios_al_principio(s) == sin_espacios_al_principio(s.subrange(i, s.len() as int)),
    decreases i,
{
    if i > 0 {
        let t = s.drop_first();
        assert forall|j: int| 0 <= j < i - 1 implies es_espacio(#[trigger] t[j]) by {
            assert(t[j] == s[j + 1]);
        }
        lema_principio(t, i - 1);
        assert(t.subrange(i - 1, t.len() as int) =~= s.subrange(i, s.len() as int));
    } else {
        assert(s.subrange(0, s.len() as int) =~= s);
    }
}

proof fn lema_final(s: Seq<char>, f: int)
    requires
        0 <= f <= s.len(),
        forall|j: int| f <= j < s.len() ==> es_espacio(#[trigger] s[j]),
    ensures
        sin_espacios_al_final(s) == sin_espacios_al_final(s.take(f)),
    decreases s.len() - f,
{
    if f < s.len() {
        let t = s.drop_last();
        assert forall|j: int| f <= j < t.len() implies es_espacio(#[trigger] t[j]) by {
            assert(t[j] == s[j]);
        }
        lema_final(t, f);
        assert(t.take(f) =~= s.take(f));
    } else {
        assert(s.take(f) =~= s);
    }
}

/// `str::trim`.
pub fn recortado(s: &[char]) -> (r: Vec<char>)
    ensures
        r@ == recortar(s@),
{
    let mut i: usize = 0;
    while i < s.len() && es_blanco(s[i])
        invariant
            i <= s.len(),
            forall|j: int| 0 <= j < i ==> es_espacio(#[trigger] s@[j]),
        decreases s.len() - i,
    {
        i = i + 1;
    }
    let mut f: usize = s.len();
    while f > i && es_blanco(s[f - 1])
        invariant
            i <= f <= s.len(),
            forall|j: int| f <= j < s.len() ==> es_espacio(#[trigger] s@[j]),
        decreases f,
    {
        f = f - 1;
    }
    proof {
        lema_principio(s@, i as int);
        let t = s@.subrange(i as int, s@.len() as int);
        if i < s.len() {
            assert(t[0] == s@[i as int]);
        }
        assert(sin_espacios_al_principio(t) == t);
        assert forall|j: int| f - i <= j < t.len() implies es_espacio(#[trigger] t[j]) by {
            assert(t[j] == s@[i + j]);
        }
        lema_final(t, f - i);
        let u = t.take(f - i);
        if f > i {
            assert(u.last() == s@[f - 1]);
        }
        assert(sin_espacios_al_final(u) == u);
        assert(u =~= s@.subrange(i as int, f as int));
    }
    tramo(s, i, f)
}

proof fn lema_lineas_paso(s: Seq<char>, i: int, actual: Seq<char>)
    requires
        0 <= i < s.len(),
    ensures
        lineas_con(s.subrange(i, s.len() as int), actual) == if s[i] == '\n' {
            seq![sin_retorno(actual)] + lineas_con(s.subrange(i + 1, s.len() as int), Seq::empty())
        } else {
            lineas_con(s.subrange(i + 1, s.len() as int), actual.push(s[i]))
        },
{
    let t = s.subrange(i, s.len() as int);
    assert(t.drop_first() =~= s.subrange(i + 1, s.len() as int));
    assert(t[0] == s[i]);
}

/// `str::lines`.
pub fn lineas(s: &[char]) -> (r: Vec<Vec<char>>)
    ensures
        r@.map_values(|l: Vec<char>| l@) == lineas_de(s@),
{
    let mut r: Vec<Vec<char>> = Vec::new();
    let mut actual: Vec<char> = Vec::new();
    let mut i: usize = 0;
    proof {
        assert(s@.subrange(0, s@.len() as int) =~= s@);
        assert(actual@ =~= Seq::<char>::empty());
        assert(r@.map_values(|l: Vec<char>| l@) + lineas_de(s@) =~= lineas_de(s@));
    }
    while i < s.len()
        invariant
            i <= s.len(),
            lineas_de(s@) == r@.map_values(|l: Vec<char>| l@) + lineas_con(
                s@.subrange(i as int, s@.len() as int),
                actual@,
            ),
        decreases s.len() - i,
    {
        proof {
            lema_lineas_paso(s@, i as int, actual@);
        }
        if s[i] == '\n' {
            let linea = if actual.len() > 0 && actual[actual.len() - 1] == '\r' {
                tramo(actual.as_slice(), 0, actual.len() - 1)
            } else {
                tramo(actual.as_slice(), 0, actual.len())
            };
            proof {
                assert(actual@.subrange(0, actual@.len() as int) =~= actual@);
                assert(linea@ =~= sin_retorno(actual@));
            }
            let ghost antes = r@;
            r.push(linea);
            assert(r@.map_values(|l: Vec<char>| l@) =~= antes.map_values(|l: Vec<char>| l@) + seq![
                sin_retorno(actual@),
            ]);
            actual = Vec::new();
        } else {
            actual.push(s[i]);
        }
        i = i + 1;
    }
    proof {
        assert(s@.subrange(i as int, s@.len() as int) =~= Seq::<char>::empty());
    }
    if actual.len() > 0 {
        let ghost antes = r@;
        let ghost ultima = actual@;
        r.push(actual);
        assert(r@.map_values(|l: Vec<char>| l@) =~= antes.map_values(|l: Vec<char>| l@) + seq![
            ultima,
        ]);
    } else {
        assert(r@.map_values(|l: Vec<char>| l@) + Seq::<Seq<char>>::empty() =~= r@.map_values(
            |l: Vec<char>| l@,
        ));
    }
    r
}

/// The separator of a split: whitespace, or `/`.
pub open spec fn separa(por_espacios: bool, c: char) -> bool {
    if por_espacios {
        es_espacio(c)
    } else {
        c == '/'
    }
}

/// The pieces of `s` between separators, empty pieces left out, `actual`
/// being the part of the current piece already read.
pub open spec fn trozos_con(s: Seq<char>, por_espacios: bool, actual: Seq<char>) -> Seq<Seq<char>>
    decreases s.len(),
{
    let cerrado = if actual.len() == 0 {
        Seq::empty()
    } else {
        seq![actual]
    };
    if s.len() == 0 {
        cerrado
    } else if separa(por_espacios, s[0]) {
        cerrado + trozos_con(s.drop_first(), por_espacios, Seq::empty())
    } else {
        trozos_con(s.drop_first(), por_espacios, actual.push(s[0]))
    }
}

/// `str::split_whitespace`.
pub open spec fn palabras_de(s: Seq<char>) -> Seq<Seq<char>> {
    trozos_con(s, true, Seq::empty())
}

proof fn lema_trozos_paso(s: Seq<char>, i: int, por_espacios: bool, actual: Seq<char>)
    requires
        0 <= i < s.len(),
    ensures
        trozos_con(s.subrange(i, s.len() as int), por_espacios, actual) == if separa(
            por_espacios,
            s[i],
        ) {
            (if actual.len() == 0 {
                Seq::empty()
            } else {
                seq![actual]
            }) + trozos_con(s.subrange(i + 1, s.len() as int), por_espacios, Seq::empty())
        } else {
            trozos_con(s.subrange(i + 1, s.len() as int), por_espacios, actual.push(s[i]))
        },
{
    let t = s.subrange(i, s.len() as int);
    assert(t.drop_first() =~= s.subrange(i + 1, s.len() as int));
    assert(t[0] == s[i]);
}

/// The pieces of `s` between whitespace, or between slashes, empty pieces
/// left out.
pub fn trozos(s: &[char], por_espacios: bool) -> (r: Vec<Vec<char>>)
    ensures
        r@.map_values(|l: Vec<char>| l@) == trozos_con(s@, por_espacios, Seq::empty()),
{
    let mut r: Vec<Vec<char>> = Vec::new();
    let mut actual: Vec<char> = Vec::new();
    let mut i: usize = 0;
    proof {
        assert(s@.subrange(0, s@.len() as int) =~= s@);
        assert(actual@ =~= Seq::<char>::empty());
        assert(r@.map_values(|l: Vec<char>| l@) + trozos_con(s@, por_espacios, Seq::empty())
            =~= trozos_con(s@, por_espacios, Seq::empty()));
    }
    while i < s.len()
        invariant
            i <= s.len(),
            trozos_con(s@, por_espacios, Seq::empty()) == r@.map_values(|l: Vec<char>| l@)
                + trozos_con(s@.subrange(i as int, s@.len() as int), por_espacios, actual@),
        decreases s.len() - i,
    {
        proof {
            lema_trozos_paso(s@, i as int, por_espacios, actual@);
        }
        let corta = if por_espacios {
            es_blanco(s[i])
        } else {
            s[i] == '/'
        };
        if corta {
            if actual.len() > 0 {
                let ghost antes = r@;
                let ghost pieza = actual@;
                r.push(actual);
                assert(r@.map_values(|l: Vec<char>| l@) =~= antes.map_values(|l: Vec<char>| l@)
                    + seq![pieza]);
            } else {
                assert(r@.map_values(|l: Vec<char>| l@) + Seq::<Seq<char>>::empty() =~= r@.map_values(
                    |l: Vec<char>| l@,
                ));
            }
            actual = Vec::new();
        } else {
            actual.push(s[i]);
        }
        i = i + 1;
    }
    proof {
        assert(s@.subrange(i as int, s@.len() as int) =~= Seq::<char>::empty());
    }
    if actual.len() > 0 {
        let ghost antes = r@;
        let ghost ultima = actual@;
        r.push(actual);
        assert(r@.map_values(|l: Vec<char>| l@) =~= antes.map_values(|l: Vec<char>| l@) + seq![
            ultima,
        ]);
    } else {
        assert(r@.map_values(|l: Vec<char>| l@) + Seq::<Seq<char>>::empty() =~= r@.map_values(
            |l: Vec<char>| l@,
        ));
    }
    r
}

/// `str::replace` with a pattern that is not empty: every occurrence of `p`,
/// from left to right and without overlapping, replaced by `r`.
pub open spec fn reemplazar(s: Seq<char>, p: Seq<char>, r: Seq<char>) -> Seq<char>
    decreases s.len(),
{
    if s.len() == 0 {
        Seq::empty()
    } else if p.len() > 0 && aparece_en(s, p, 0) {
        r + reemplazar(s.subrange(p.len() as int, s.len() as int), p, r)
    } else {
        seq![s[0]] + reemplazar(s.drop_first(), p, r)
    }
}

proof fn lema_reemplazar_tramo(s: Seq<char>, i: int, p: Seq<char>)
    requires
        0 <= i <= s.len(),
        p.len() > 0,
    ensures
        aparece_en(s.subrange(i, s.len() as int), p, 0) == aparece_en(s, p, i),
{
    let t = s.subrange(i, s.len() as int);
    if i + p.len() <= s.len() {
        assert(t.subrange(0, p.len() as int) =~= s.subrange(i, i + p.len()));
    }
}

/// Every occurrence of `p` in `s` replaced by `r`, as `str::replace` does.
pub fn reemplazar_todo(s: &[char], p: &[char], r: &[char]) -> (out: Vec<char>)
    requires
        p@.len() > 0,
    ensures
        out@ == reemplazar(s@, p@, r@),
{
    let mut out: Vec<char> = Vec::new();
    let mut i: usize = 0;
    proof {
        assert(s@.subrange(0, s@.len() as int) =~= s@);
    }
    while i < s.len()
        invariant
            i <= s.len(),
            p@.len() > 0,
            reemplazar(s@, p@, r@) == out@ + reemplazar(s@.subrange(i as int, s@.len() as int), p@, r@),
        decreases s.len() - i,
    {
        let ghost t = s@.subrange(i as int, s@.len() as int);
        proof {
            lema_reemplazar_tramo(s@, i as int, p@);
        }
        let ghost antes = out@;
        if aparece(s, p, i) {
            anexar(&mut out, r);
            proof {
                assert(t.subrange(p@.len() as int, t.len() as int) =~= s@.subrange(
                    i + p@.len(),
                    s@.len() as int,
                ));
                assert(antes + (r@ + reemplazar(t.subrange(p@.len() as int, t.len() as int), p@, r@))
                    =~= out@ + reemplazar(t.subrange(p@.len() as int, t.len() as int), p@, r@));
            }
            i = i + p.len();
        } else {
            out.push(s[i]);
            proof {
                assert(t.drop_first() =~= s@.subrange(i + 1, s@.len() as int));
                assert(t[0] == s@[i as int]);
                assert(antes + (seq![s@[i as int]] + reemplazar(t.drop_first(), p@, r@)) =~= out@
                    + reemplazar(t.drop_first(), p@, r@));
            }
            i = i + 1;
        }
    }
    proof {
        assert(s@.subrange(i as int, s@.len() as int) =~= Seq::<char>::empty());
        assert(out@ + Seq::<char>::empty() =~= out@);
    }
    out
}

/// A text without the pattern is left as it was.
pub proof fn sin_el_patron_queda_igual(s: Seq<char>, p: Seq<char>, r: Seq<char>)
    requires
        p.len() > 0,
        forall|i: int| 0 <= i ==> !#[trigger] aparece_en(s, p, i),
    ensures
        reemplazar(s, p, r) == s,
    decreases s.len(),
{
    if s.len() > 0 {
        let t = s.drop_first();
        assert forall|i: int| 0 <= i implies !#[trigger] aparece_en(t, p, i) by {
            if aparece_en(t, p, i) {
                assert(t.subrange(i, i + p.len()) =~= s.subrange(i + 1, i + 1 + p.len()));
                assert(aparece_en(s, p, i + 1));
            }
        }
        assert(!aparece_en(s, p, 0));
        sin_el_patron_queda_igual(t, p, r);
        assert(seq![s[0]] + t =~= s);
    }
}

/// The characters of a string slice.
pub fn caracteres(s: &str) -> (v: Vec<char>)
    ensures
        v@ == s@,
{
    let mut v: Vec<char> = Vec::new();
    for c in it: s.chars()
        invariant
            v@ == it.seq().take(it.index() as int),
            it.seq() == s@,
    {
        v.push(c);
    }
    v
}

/// `String::push`.
#[verifier::external_body]
fn empujar(s: &mut String, c: char)
    ensures
        final(s)@ == old(s)@.push(c),
{
    s.push(c);
}

/// A string made of these characters.
pub fn cadena(v: &[char]) -> (s: String)
    ensures
        s@ == v@,
{
    let mut s = String::new();
    let mut i: usize = 0;
    while i < v.len()
        invariant
            i <= v.len(),
            s@ == v@.take(i as int),
        decreases v.len() - i,
    {
        empujar(&mut s, v[i]);
        assert(v@.take(i + 1) == v@.take(i as int).push(v@[i as int]));
        i = i + 1;
    }
    assert(v@.take(v.len() as int) == v@);
    s
}

/// Appends the characters of `b` to `a`.
pub fn anexar(a: &mut Vec<char>, b: &[char])
    ensures
        final(a)@ == old(a)@ + b@,
{
    let ghost inicial = a@;
    let mut i: usize = 0;
    while i < b.len()
        invariant
            i <= b.len(),
            a@ == inicial + b@.take(i as int),
        decreases b.len() - i,
    {
        a.push(b[i]);
        assert(b@.take(i + 1) == b@.take(i as int).push(b@[i as int]));
        i = i + 1;
    }
    assert(b@.take(b.len() as int) == b@);
}

/// The characters from `desde` up to `hasta`.
pub fn tramo(s: &[char], desde: usize, hasta: usize) -> (r: Vec<char>)
    requires
        desde <= hasta <= s.len(),
    ensures
        r@ == s@.subrange(desde as int, hasta as int),
{
    let mut r: Vec<char> = Vec::new();
    let mut i = desde;
    while i < hasta
        invariant
            desde <= i <= hasta <= s.len(),
            r@ == s@.subrange(desde as int, i as int),
        decreases hasta - i,
    {
        r.push(s[i]);
        assert(s@.subrange(desde as int, i + 1) == s@.subrange(desde as int, i as int).push(
            s@[i as int],
        ));
        i = i + 1;
    }
    r
}

/// Whether two runs of characters are the same.
pub fn iguales(a: &[char], b: &[char]) -> (r: bool)
    ensures
        r == (a@ == b@),
{
    if a.len() != b.len() {
        return false;
    }
    let mut i: usize = 0;
    while i < a.len()
        invariant
            a.len() == b.len(),
            i <= a.len(),
            forall|j: int| 0 <= j < i ==> a@[j] == b@[j],
        decreases a.len() - i,
    {
        if a[i] != b[i] {
            return false;
        }
        i = i + 1;
    }
    assert(a@ =~= b@);
    true
}

/// Whether `p` occurs in `s` at `i`.
pub fn aparece(s: &[char], p: &[char], i: usize) -> (r: bool)
    ensures
        r == aparece_en(s@, p@, i as int),
{
    if i > s.len() || p.len() > s.len() - i {
        return false;
    }
    let mut j: usize = 0;
    while j < p.len()
        invariant
            i + p.len() <= s.len(),
            j <= p.len(),
            forall|k: int| 0 <= k < j ==> s@[i + k] == p@[k],
        decreases p.len() - j,
    {
        if s[i + j] != p[j] {
            assert(s@.subrange(i as int, i + p.len())[j as int] != p@[j as int]);
            return false;
        }
        j = j + 1;
    }
    assert(s@.subrange(i as int, i + p.len()) =~= p@);
    true
}

/// `s` begins with `p`.
pub fn empieza(s: &[char], p: &[char]) -> (r: bool)
    ensures
        r == empieza_con(s@, p@),
{
    let r = aparece(s, p, 0);
    r
}

/// `s` ends with `p`.
pub fn termina(s: &[char], p: &[char]) -> (r: bool)
    ensures
        r == termina_con(s@, p@),
{
    if p.len() > s.len() {
        return false;
    }
    aparece(s, p, s.len() - p.len())
}

/// The first position at or after `desde` where `p` occurs.
pub fn buscar_desde(s: &[char], p: &[char], desde: usize) -> (r: Option<usize>)
    ensures
        match r {
            Some(i) => primera_desde(s@, p@, desde as int) == Some(i as int),
            None => primera_desde(s@, p@, desde as int) is None,
        },
{
    if desde > s.len() || p.len() > s.len() - desde {
        return None;
    }
    let fin = s.len() - p.len();
    let mut i = desde;
    loop
        invariant
            desde <= i <= fin,
            fin == s.len() - p.len(),
            primera_desde(s@, p@, desde as int) == primera_desde(s@, p@, i as int),
        decreases fin - i,
    {
        if aparece(s, p, i) {
            return Some(i);
        }
        if i == fin {
            assert(primera_desde(s@, p@, i + 1) is None);
            return None;
        }
        i = i + 1;
    }
}

/// The first position where `p` occurs.
pub fn buscar(s: &[char], p: &[char]) -> (r: Option<usize>)
    ensures
        match r {
            Some(i) => primera(s@, p@) == Some(i as int) && i + p.len() <= s.len() && aparece_en(
                s@,
                p@,
                i as int,
            ),
            None => primera(s@, p@) is None,
        },
{
    proof {
        lema_primera_desde(s@, p@, 0);
    }
    buscar_desde(s, p, 0)
}

/// Whether `p` occurs anywhere in `s`.
pub fn esta_en(s: &[char], p: &[char]) -> (r: bool)
    ensures
        r == contiene(s@, p@),
{
    buscar(s, p).is_some()
}

} // verus!
