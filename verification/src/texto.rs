//! Texto como secuencia de caracteres: las operaciones que usan las reglas de
//! limpieza, con su significado sobre `Seq<char>`.

use vstd::prelude::*;
use vstd::utf8::encode_utf8;

verus! {

// ---------------------------------------------------------------------------
// Significado
// ---------------------------------------------------------------------------

/// Espacio en blanco segun la propiedad White_Space de Unicode.
pub open spec fn es_blanco(c: char) -> bool {
    let u = c as u32;
    ||| 9 <= u <= 13
    ||| u == 32
    ||| u == 0x85
    ||| u == 0xA0
    ||| u == 0x1680
    ||| 0x2000 <= u <= 0x200A
    ||| u == 0x2028
    ||| u == 0x2029
    ||| u == 0x202F
    ||| u == 0x205F
    ||| u == 0x3000
}

/// `s` sin los blancos del comienzo.
pub open spec fn sin_blancos_izq(s: Seq<char>) -> Seq<char>
    decreases s.len(),
{
    if s.len() > 0 && es_blanco(s[0]) {
        sin_blancos_izq(s.drop_first())
    } else {
        s
    }
}

/// `s` sin los blancos del final.
pub open spec fn sin_blancos_der(s: Seq<char>) -> Seq<char>
    decreases s.len(),
{
    if s.len() > 0 && es_blanco(s.last()) {
        sin_blancos_der(s.drop_last())
    } else {
        s
    }
}

/// `s` sin blancos en los extremos.
pub open spec fn recortado(s: Seq<char>) -> Seq<char> {
    sin_blancos_der(sin_blancos_izq(s))
}

/// `s` sin las repeticiones de `c` del comienzo.
pub open spec fn sin_car_izq(s: Seq<char>, c: char) -> Seq<char>
    decreases s.len(),
{
    if s.len() > 0 && s[0] == c {
        sin_car_izq(s.drop_first(), c)
    } else {
        s
    }
}

/// `s` sin las repeticiones de `c` del final.
pub open spec fn sin_car_der(s: Seq<char>, c: char) -> Seq<char>
    decreases s.len(),
{
    if s.len() > 0 && s.last() == c {
        sin_car_der(s.drop_last(), c)
    } else {
        s
    }
}

/// `s` sin repeticiones de `c` en los extremos.
pub open spec fn recortado_car(s: Seq<char>, c: char) -> Seq<char> {
    sin_car_der(sin_car_izq(s, c), c)
}

/// `p` ocupa en `s` las posiciones desde `i`.
pub open spec fn aparece(s: Seq<char>, p: Seq<char>, i: int) -> bool {
    0 <= i && i + p.len() <= s.len() && s.subrange(i, i + p.len()) == p
}

/// `p` aparece en alguna posicion de `s`.
pub open spec fn contiene(s: Seq<char>, p: Seq<char>) -> bool {
    exists|i: int| aparece(s, p, i)
}

/// Primera posicion de `p` en `s` no anterior a `desde`.
pub open spec fn indice(s: Seq<char>, p: Seq<char>, desde: int) -> Option<int>
    decreases s.len() - desde,
{
    if desde < 0 || desde >= s.len() || desde + p.len() > s.len() {
        None
    } else if aparece(s, p, desde) {
        Some(desde)
    } else {
        indice(s, p, desde + 1)
    }
}

pub open spec fn empieza(s: Seq<char>, p: Seq<char>) -> bool {
    aparece(s, p, 0)
}

pub open spec fn termina(s: Seq<char>, p: Seq<char>) -> bool {
    aparece(s, p, s.len() - p.len())
}

/// `s` con cada aparicion de `p`, de izquierda a derecha y sin solaparse,
/// cambiada por `r`.
pub open spec fn reemplazado(s: Seq<char>, p: Seq<char>, r: Seq<char>) -> Seq<char>
    decreases s.len(),
{
    if p.len() == 0 || s.len() < p.len() {
        s
    } else if aparece(s, p, 0) {
        r + reemplazado(s.skip(p.len() as int), p, r)
    } else {
        seq![s[0]] + reemplazado(s.drop_first(), p, r)
    }
}

/// Las partes de `actual` seguido de `s` que separa `sep`, sabiendo que
/// `actual` no lo contiene.
pub open spec fn partes_desde(actual: Seq<char>, s: Seq<char>, sep: char) -> Seq<Seq<char>>
    decreases s.len(),
{
    if s.len() == 0 {
        seq![actual]
    } else if s[0] == sep {
        seq![actual] + partes_desde(seq![], s.drop_first(), sep)
    } else {
        partes_desde(actual.push(s[0]), s.drop_first(), sep)
    }
}

/// Las partes de `s` que separa `sep`.
pub open spec fn partes(s: Seq<char>, sep: char) -> Seq<Seq<char>> {
    partes_desde(seq![], s, sep)
}

/// Lo que queda de `s` tras la ultima aparicion de `c` (todo `s` si no hay).
pub open spec fn tras_ultimo(s: Seq<char>, c: char) -> Seq<char>
    decreases s.len(),
{
    if s.len() == 0 {
        s
    } else if s.last() == c {
        seq![]
    } else {
        tras_ultimo(s.drop_last(), c).push(s.last())
    }
}

/// `s` partido en la primera aparicion de `c`, que no queda en ninguna parte.
pub open spec fn partido(s: Seq<char>, c: char) -> Option<(Seq<char>, Seq<char>)> {
    match indice(s, seq![c], 0) {
        Some(i) => Some((s.take(i), s.skip(i + 1))),
        None => None,
    }
}

/// Las palabras de `s`: tramos maximos sin blancos. `actual` es el tramo
/// abierto.
pub open spec fn palabras_desde(actual: Seq<char>, s: Seq<char>) -> Seq<Seq<char>>
    decreases s.len(),
{
    if s.len() == 0 {
        if actual.len() == 0 {
            seq![]
        } else {
            seq![actual]
        }
    } else if es_blanco(s[0]) {
        if actual.len() == 0 {
            palabras_desde(seq![], s.drop_first())
        } else {
            seq![actual] + palabras_desde(seq![], s.drop_first())
        }
    } else {
        palabras_desde(actual.push(s[0]), s.drop_first())
    }
}

pub open spec fn palabras(s: Seq<char>) -> Seq<Seq<char>> {
    palabras_desde(seq![], s)
}

/// Los textos de `v` en orden, con `sep` entre cada dos.
pub open spec fn unido(v: Seq<Seq<char>>, sep: Seq<char>) -> Seq<char>
    decreases v.len(),
{
    if v.len() == 0 {
        seq![]
    } else if v.len() == 1 {
        v[0]
    } else {
        unido(v.drop_last(), sep) + sep + v.last()
    }
}

/// Linea sin el retorno de carro que precede al salto.
pub open spec fn sin_retorno(l: Seq<char>) -> Seq<char> {
    if l.len() > 0 && l.last() == '\r' {
        l.drop_last()
    } else {
        l
    }
}

/// Las lineas de `actual` seguido de `s`: terminan en salto de linea (o en
/// retorno y salto), salvo la ultima, que puede no tenerlo.
pub open spec fn lineas_desde(actual: Seq<char>, s: Seq<char>) -> Seq<Seq<char>>
    decreases s.len(),
{
    if s.len() == 0 {
        if actual.len() == 0 {
            seq![]
        } else {
            seq![actual]
        }
    } else if s[0] == '\n' {
        seq![sin_retorno(actual)] + lineas_desde(seq![], s.drop_first())
    } else {
        lineas_desde(actual.push(s[0]), s.drop_first())
    }
}

pub open spec fn lineas(s: Seq<char>) -> Seq<Seq<char>> {
    lineas_desde(seq![], s)
}

/// Bytes que ocupa un caracter en UTF-8.
pub open spec fn ancho(c: char) -> int {
    let u = c as u32;
    if u < 0x80 {
        1
    } else if u < 0x800 {
        2
    } else if u < 0x10000 {
        3
    } else {
        4
    }
}

/// Bytes que ocupa `s` en UTF-8.
pub open spec fn bytes_de(s: Seq<char>) -> int
    decreases s.len(),
{
    if s.len() == 0 {
        0
    } else {
        ancho(s[0]) + bytes_de(s.drop_first())
    }
}

/// Cuantos caracteres de `s` ocupan exactamente `b` bytes, si `b` cae entre
/// dos caracteres.
pub open spec fn indice_byte(s: Seq<char>, b: int) -> Option<int>
    decreases s.len(),
{
    if b == 0 {
        Some(0)
    } else if b < 0 || s.len() == 0 {
        None
    } else {
        match indice_byte(s.drop_first(), b - ancho(s[0])) {
            Some(i) => Some(i + 1),
            None => None,
        }
    }
}

/// Los bytes `a..b` de `s`, si ambos caen entre caracteres.
pub open spec fn corte_bytes(s: Seq<char>, a: int, b: int) -> Option<Seq<char>> {
    match (indice_byte(s, a), indice_byte(s, b)) {
        (Some(i), Some(j)) => if i <= j {
            Some(s.subrange(i, j))
        } else {
            None
        },
        _ => None,
    }
}

/// `s` con `c` repetido por delante hasta tener `n` caracteres.
pub open spec fn rellenado(s: Seq<char>, n: int, c: char) -> Seq<char> {
    if s.len() >= n {
        s
    } else {
        Seq::new((n - s.len()) as nat, |i: int| c) + s
    }
}

/// La cifra decimal `d`.
pub open spec fn cifra(d: int) -> char {
    if d <= 0 {
        '0'
    } else if d == 1 {
        '1'
    } else if d == 2 {
        '2'
    } else if d == 3 {
        '3'
    } else if d == 4 {
        '4'
    } else if d == 5 {
        '5'
    } else if d == 6 {
        '6'
    } else if d == 7 {
        '7'
    } else if d == 8 {
        '8'
    } else {
        '9'
    }
}

/// `n` en base diez.
pub open spec fn decimal(n: nat) -> Seq<char>
    decreases n,
{
    if n < 10 {
        seq![cifra(n as int)]
    } else {
        decimal(n / 10).push(cifra((n % 10) as int))
    }
}

/// `n` en base diez, con signo si es negativo.
pub open spec fn decimal_signo(n: int) -> Seq<char> {
    if n < 0 {
        seq!['-'] + decimal((-n) as nat)
    } else {
        decimal(n as nat)
    }
}

/// `n` en base diez con al menos `w` cifras.
pub open spec fn decimal_ancho(n: nat, w: int) -> Seq<char> {
    rellenado(decimal(n), w, '0')
}

pub open spec fn es_cifra(c: char) -> bool {
    '0' <= c <= '9'
}

pub open spec fn valor_cifra(c: char) -> int {
    c as int - '0' as int
}

/// Todo `s` son cifras.
pub open spec fn son_cifras(s: Seq<char>) -> bool {
    forall|i: int| 0 <= i < s.len() ==> es_cifra(#[trigger] s[i])
}

/// El numero que escriben las cifras de `s`.
pub open spec fn valor(s: Seq<char>) -> int
    decreases s.len(),
{
    if s.len() == 0 {
        0
    } else {
        valor(s.drop_last()) * 10 + valor_cifra(s.last())
    }
}

/// El numero sin signo que escribe `s` (admite un `+` delante), si no pasa de
/// `max`.
pub open spec fn natural_leido(s: Seq<char>, max: int) -> Option<int> {
    let d = if s.len() > 1 && s[0] == '+' {
        s.drop_first()
    } else {
        s
    };
    if d.len() > 0 && son_cifras(d) && valor(d) <= max {
        Some(valor(d))
    } else {
        None
    }
}

/// El numero con signo que escribe `s`, si esta entre `min` y `max`.
pub open spec fn entero_leido(s: Seq<char>, min: int, max: int) -> Option<int> {
    if s.len() > 1 && s[0] == '-' {
        let d = s.drop_first();
        if son_cifras(d) && -valor(d) >= min {
            Some(-valor(d))
        } else {
            None
        }
    } else {
        natural_leido(s, max)
    }
}

// ---------------------------------------------------------------------------
// Mayusculas y minusculas de Unicode
// ---------------------------------------------------------------------------

/// Lo que devuelve `str::to_uppercase`.
pub uninterp spec fn mayusculas(s: Seq<char>) -> Seq<char>;

/// Lo que devuelve `str::to_lowercase`.
pub uninterp spec fn minusculas(s: Seq<char>) -> Seq<char>;

pub open spec fn es_ascii(s: Seq<char>) -> bool {
    forall|i: int| 0 <= i < s.len() ==> (#[trigger] s[i] as u32) < 0x80
}

/// La mayuscula de un caracter ASCII.
pub open spec fn mayuscula_ascii(c: char) -> char {
    if 'a' <= c <= 'z' {
        (c as u32 - 32) as char
    } else {
        c
    }
}

/// La minuscula de un caracter ASCII.
pub open spec fn minuscula_ascii(c: char) -> char {
    if 'A' <= c <= 'Z' {
        (c as u32 + 32) as char
    } else {
        c
    }
}

/// `str::to_uppercase` aplica las tablas de mayusculas de Unicode: el resultado
/// depende solo del texto, y sobre ASCII cambia cada letra por su mayuscula.
pub assume_specification[ str::to_uppercase ](s: &str) -> (r: String)
    ensures
        r@ == mayusculas(s@),
        es_ascii(s@) ==> r@ == s@.map_values(|c: char| mayuscula_ascii(c)),
;

/// `str::to_lowercase` aplica las tablas de minusculas de Unicode: el resultado
/// depende solo del texto, y sobre ASCII cambia cada letra por su minuscula.
pub assume_specification[ str::to_lowercase ](s: &str) -> (r: String)
    ensures
        r@ == minusculas(s@),
        es_ascii(s@) ==> r@ == s@.map_values(|c: char| minuscula_ascii(c)),
;

/// `String::push` anade un caracter al final.
pub assume_specification[ String::push ](s: &mut String, c: char)
    ensures
        final(s)@ == old(s)@.push(c),
;

/// Los textos de un vector de cadenas.
pub open spec fn textos(v: Seq<String>) -> Seq<Seq<char>> {
    v.map_values(|s: String| s@)
}

// ---------------------------------------------------------------------------
// Lemas
// ---------------------------------------------------------------------------

pub proof fn lema_indice(s: Seq<char>, p: Seq<char>, desde: int)
    requires
        0 <= desde,
        p.len() > 0,
    ensures
        match indice(s, p, desde) {
            Some(i) => desde <= i && aparece(s, p, i) && forall|j: int|
                desde <= j < i ==> !aparece(s, p, j),
            None => forall|j: int| desde <= j ==> !aparece(s, p, j),
        },
    decreases s.len() - desde,
{
    if desde >= s.len() || desde + p.len() > s.len() {
    } else if aparece(s, p, desde) {
    } else {
        lema_indice(s, p, desde + 1);
    }
}

pub proof fn lema_bytes_utf8(s: Seq<char>)
    ensures
        encode_utf8(s).len() == bytes_de(s),
    decreases s.len(),
{
    if s.len() > 0 {
        vstd::utf8::char_is_scalar(s[0]);
        lema_bytes_utf8(s.drop_first());
        assert(encode_utf8(s) == vstd::utf8::encode_scalar(s[0] as u32) + encode_utf8(
            s.drop_first(),
        ));
        assert(vstd::utf8::encode_scalar(s[0] as u32).len() == ancho(s[0]));
    }
}

/// Un texto ocupa al menos un byte y a lo mas cuatro por caracter.
pub proof fn lema_bytes_cotas(s: Seq<char>)
    ensures
        s.len() <= bytes_de(s) <= 4 * s.len(),
    decreases s.len(),
{
    if s.len() > 0 {
        lema_bytes_cotas(s.drop_first());
    }
}

pub proof fn lema_bytes_suma(a: Seq<char>, b: Seq<char>)
    ensures
        bytes_de(a + b) == bytes_de(a) + bytes_de(b),
    decreases a.len(),
{
    if a.len() == 0 {
        assert(a + b =~= b);
    } else {
        assert((a + b).drop_first() =~= a.drop_first() + b);
        lema_bytes_suma(a.drop_first(), b);
    }
}

pub proof fn lema_indice_byte(s: Seq<char>, b: int)
    ensures
        indice_byte(s, b) matches Some(i) ==> 0 <= i <= s.len() && bytes_de(s.take(i)) == b,
    decreases s.len(),
{
    if b == 0 {
        assert(s.take(0) =~= Seq::<char>::empty());
    } else if b < 0 || s.len() == 0 {
    } else {
        lema_indice_byte(s.drop_first(), b - ancho(s[0]));
        if let Some(i) = indice_byte(s.drop_first(), b - ancho(s[0])) {
            assert(s.take(i + 1).drop_first() =~= s.drop_first().take(i));
        }
    }
}

/// `i` caracteres de `s` estan en la posicion de byte que ocupan.
pub proof fn lema_indice_byte_de(s: Seq<char>, i: int)
    requires
        0 <= i <= s.len(),
    ensures
        indice_byte(s, bytes_de(s.take(i))) == Some(i),
    decreases i,
{
    if i == 0 {
        assert(s.take(0) =~= Seq::<char>::empty());
    } else {
        assert(s.take(i).drop_first() =~= s.drop_first().take(i - 1));
        lema_bytes_cotas(s.drop_first().take(i - 1));
        lema_indice_byte_de(s.drop_first(), i - 1);
    }
}

/// Un tramo sin separadores alarga la parte en curso.
pub proof fn lema_partes_tramo(actual: Seq<char>, a: Seq<char>, b: Seq<char>, sep: char)
    requires
        forall|i: int| 0 <= i < a.len() ==> #[trigger] a[i] != sep,
    ensures
        partes_desde(actual, a + b, sep) == partes_desde(actual + a, b, sep),
    decreases a.len(),
{
    if a.len() == 0 {
        assert(a + b =~= b);
        assert(actual + a =~= actual);
    } else {
        let t = a.drop_first();
        assert((a + b).drop_first() =~= t + b);
        assert((a + b)[0] == a[0]);
        assert forall|i: int| 0 <= i < t.len() implies #[trigger] t[i] != sep by {
            assert(t[i] == a[i + 1]);
        }
        lema_partes_tramo(actual.push(a[0]), t, b, sep);
        assert(actual.push(a[0]) + t =~= actual + a);
    }
}

/// Las partes a un lado y a otro de un separador.
pub proof fn lema_partes_suma(actual: Seq<char>, u: Seq<char>, r: Seq<char>, sep: char)
    ensures
        partes_desde(actual, u + seq![sep] + r, sep) == partes_desde(actual, u, sep)
            + partes_desde(seq![], r, sep),
    decreases u.len(),
{
    let s = u + seq![sep] + r;
    if u.len() == 0 {
        assert(s[0] == sep);
        assert(s.drop_first() =~= r);
    } else {
        let t = u.drop_first();
        assert(s[0] == u[0]);
        assert(s.drop_first() =~= t + seq![sep] + r);
        if u[0] == sep {
            lema_partes_suma(seq![], t, r, sep);
            assert(seq![actual] + (partes_desde(seq![], t, sep) + partes_desde(seq![], r, sep))
                =~= seq![actual] + partes_desde(seq![], t, sep) + partes_desde(seq![], r, sep));
        } else {
            lema_partes_suma(actual.push(u[0]), t, r, sep);
        }
    }
}

/// Reemplazar un caracter: el primero se cambia o se deja, y se sigue con el resto.
pub proof fn lema_reemplazo_paso(s: Seq<char>, p: char, r: Seq<char>)
    requires
        s.len() > 0,
    ensures
        reemplazado(s, seq![p], r) == (if s[0] == p {
            r
        } else {
            seq![s[0]]
        }) + reemplazado(s.drop_first(), seq![p], r),
{
    assert(s.skip(1) =~= s.drop_first());
    assert(s.subrange(0, 1) =~= seq![s[0]]);
    if s[0] != p {
        if aparece(s, seq![p], 0) {
            assert(s.subrange(0, 1)[0] == p);
        }
    }
}

/// Donde no esta el caracter, reemplazarlo no cambia nada.
pub proof fn lema_reemplazo_nulo(s: Seq<char>, p: char, r: Seq<char>)
    requires
        forall|i: int| 0 <= i < s.len() ==> #[trigger] s[i] != p,
    ensures
        reemplazado(s, seq![p], r) == s,
    decreases s.len(),
{
    if s.len() > 0 {
        let t = s.drop_first();
        assert forall|i: int| 0 <= i < t.len() implies #[trigger] t[i] != p by {
            assert(t[i] == s[i + 1]);
        }
        lema_reemplazo_nulo(t, p, r);
        lema_reemplazo_paso(s, p, r);
        assert(seq![s[0]] + t =~= s);
    }
}

/// Reemplazado un caracter por un texto que no lo lleva, ya no aparece.
pub proof fn lema_reemplazo_quita(s: Seq<char>, p: char, r: Seq<char>)
    requires
        !r.contains(p),
    ensures
        !reemplazado(s, seq![p], r).contains(p),
    decreases s.len(),
{
    if s.len() > 0 {
        lema_reemplazo_quita(s.drop_first(), p, r);
        lema_reemplazo_paso(s, p, r);
        let a = if s[0] == p {
            r
        } else {
            seq![s[0]]
        };
        let b = reemplazado(s.drop_first(), seq![p], r);
        assert forall|k: int| 0 <= k < (a + b).len() implies #[trigger] (a + b)[k] != p by {
            if k < a.len() {
                assert((a + b)[k] == a[k]);
                if s[0] == p {
                    assert(r[k] != p);
                }
            } else {
                assert((a + b)[k] == b[k - a.len()]);
            }
        }
    }
}

// ---------------------------------------------------------------------------
// Operaciones
// ---------------------------------------------------------------------------

/// Los caracteres de `s`.
pub fn caracteres(s: &str) -> (v: Vec<char>)
    ensures
        v@ == s@,
{
    let mut v: Vec<char> = Vec::new();
    for c in it: s.chars()
        invariant
            v@ == it.seq().take(it.index() as int),
            it.seq() == s@,
    {
        v.push(c);
        assert(it.seq().take(it.index() + 1) =~= it.seq().take(it.index() as int).push(c));
    }
    assert(s@.take(s@.len() as int) =~= s@);
    v
}

/// El texto de los caracteres `desde..hasta` de `v`.
pub fn cadena(v: &Vec<char>, desde: usize, hasta: usize) -> (r: String)
    requires
        desde <= hasta <= v@.len(),
    ensures
        r@ == v@.subrange(desde as int, hasta as int),
{
    let mut r = String::new();
    let mut i: usize = desde;
    while i < hasta
        invariant
            desde <= i <= hasta <= v@.len(),
            r@ == v@.subrange(desde as int, i as int),
        decreases hasta - i,
    {
        r.push(v[i]);
        i = i + 1;
        assert(v@.subrange(desde as int, i as int) =~= v@.subrange(desde as int, i - 1).push(v@[i - 1]));
    }
    r
}

/// Los dos textos tienen los mismos caracteres.
pub fn iguales(a: &str, b: &str) -> (r: bool)
    ensures
        r == (a@ == b@),
{
    let a2 = a.to_owned();
    let b2 = b.to_owned();
    a2 == b2
}

pub fn blanco(c: char) -> (r: bool)
    ensures
        r == es_blanco(c),
{
    let u = c as u32;
    (9 <= u && u <= 13) || u == 32 || u == 0x85 || u == 0xA0 || u == 0x1680 || (0x2000 <= u && u <= 0x200A)
        || u == 0x2028 || u == 0x2029 || u == 0x202F || u == 0x205F || u == 0x3000
}

/// Los extremos, en `v`, del texto sin blancos alrededor.
fn extremos_utiles(v: &Vec<char>, desde: usize, hasta: usize) -> (r: (usize, usize))
    requires
        desde <= hasta <= v@.len(),
    ensures
        desde <= r.0 <= r.1 <= hasta,
        v@.subrange(r.0 as int, r.1 as int) == recortado(v@.subrange(desde as int, hasta as int)),
{
    let ghost s = v@.subrange(desde as int, hasta as int);
    let mut i: usize = desde;
    while i < hasta && blanco(v[i])
        invariant
            desde <= i <= hasta <= v@.len(),
            s == v@.subrange(desde as int, hasta as int),
            sin_blancos_izq(s) == sin_blancos_izq(v@.subrange(i as int, hasta as int)),
        decreases hasta - i,
    {
        assert(v@.subrange(i as int, hasta as int).drop_first() =~= v@.subrange(i + 1, hasta as int));
        i = i + 1;
    }
    let ghost t = v@.subrange(i as int, hasta as int);
    assert(sin_blancos_izq(s) == t);
    let mut j: usize = hasta;
    while j > i && blanco(v[j - 1])
        invariant
            desde <= i <= j <= hasta <= v@.len(),
            t == v@.subrange(i as int, hasta as int),
            sin_blancos_der(t) == sin_blancos_der(v@.subrange(i as int, j as int)),
        decreases j,
    {
        assert(v@.subrange(i as int, j as int).drop_last() =~= v@.subrange(i as int, j - 1));
        j = j - 1;
    }
    (i, j)
}

/// `s` sin blancos en los extremos.
pub fn recortar(s: &str) -> (r: String)
    ensures
        r@ == recortado(s@),
{
    let v = caracteres(s);
    let n: usize = v.len();
    let (i, j) = extremos_utiles(&v, 0, n);
    assert(v@.subrange(0, n as int) =~= s@);
    cadena(&v, i, j)
}

/// `s` sin repeticiones de `c` en los extremos.
pub fn recortar_car(s: &str, c: char) -> (r: String)
    ensures
        r@ == recortado_car(s@, c),
{
    let v = caracteres(s);
    let n: usize = v.len();
    let mut i: usize = 0;
    assert(v@.subrange(0, n as int) =~= s@);
    while i < n && v[i] == c
        invariant
            0 <= i <= n == v@.len(),
            v@ == s@,
            sin_car_izq(s@, c) == sin_car_izq(v@.subrange(i as int, n as int), c),
        decreases n - i,
    {
        assert(v@.subrange(i as int, n as int).drop_first() =~= v@.subrange(i + 1, n as int));
        i = i + 1;
    }
    let ghost t = v@.subrange(i as int, n as int);
    assert(sin_car_izq(s@, c) == t);
    let mut j: usize = n;
    while j > i && v[j - 1] == c
        invariant
            0 <= i <= j <= n == v@.len(),
            t == v@.subrange(i as int, n as int),
            sin_car_der(t, c) == sin_car_der(v@.subrange(i as int, j as int), c),
        decreases j,
    {
        assert(v@.subrange(i as int, j as int).drop_last() =~= v@.subrange(i as int, j - 1));
        j = j - 1;
    }
    cadena(&v, i, j)
}

/// `p` esta en `v` desde `i`.
pub fn aparece_en(v: &Vec<char>, p: &Vec<char>, i: usize) -> (r: bool)
    ensures
        r == aparece(v@, p@, i as int),
{
    let n: usize = p.len();
    if i > v.len() || n > v.len() - i {
        return false;
    }
    let mut k: usize = 0;
    while k < n
        invariant
            n == p@.len(),
            0 <= k <= n,
            i + n <= v.len(),
            forall|j: int| 0 <= j < k ==> v@[i + j] == #[trigger] p@[j],
        decreases n - k,
    {
        if v[i + k] != p[k] {
            assert(v@.subrange(i as int, i + n)[k as int] != p@[k as int]);
            return false;
        }
        k = k + 1;
    }
    assert(v@.subrange(i as int, i + n) =~= p@);
    true
}

/// Primera posicion de `p` en `v` no anterior a `desde`.
pub fn buscar_desde(v: &Vec<char>, p: &Vec<char>, desde: usize) -> (r: Option<usize>)
    ensures
        match r {
            Some(i) => indice(v@, p@, desde as int) == Some(i as int),
            None => indice(v@, p@, desde as int) is None,
        },
{
    let n: usize = v.len();
    let m: usize = p.len();
    let mut i: usize = desde;
    while i < n && m <= n - i
        invariant
            desde <= i,
            n == v@.len(),
            m == p@.len(),
            indice(v@, p@, desde as int) == indice(v@, p@, i as int),
        decreases n - i,
    {
        if aparece_en(v, p, i) {
            return Some(i);
        }
        i = i + 1;
    }
    None
}

/// Primera posicion de `p` en `s`.
pub fn buscar(s: &str, p: &str) -> (r: Option<usize>)
    ensures
        match r {
            Some(i) => indice(s@, p@, 0) == Some(i as int),
            None => indice(s@, p@, 0) is None,
        },
{
    let v = caracteres(s);
    let q = caracteres(p);
    buscar_desde(&v, &q, 0)
}

/// `p` aparece en `s`.
pub fn contiene_texto(s: &str, p: &str) -> (r: bool)
    requires
        p@.len() > 0,
    ensures
        r == contiene(s@, p@),
{
    proof {
        lema_indice(s@, p@, 0);
    }
    match buscar(s, p) {
        Some(i) => {
            assert(aparece(s@, p@, i as int));
            true
        },
        None => {
            assert forall|j: int| !aparece(s@, p@, j) by {
                if j < 0 {
                }
            }
            false
        },
    }
}

pub fn empieza_con(s: &str, p: &str) -> (r: bool)
    ensures
        r == empieza(s@, p@),
{
    let v = caracteres(s);
    let q = caracteres(p);
    aparece_en(&v, &q, 0)
}

pub fn termina_con(s: &str, p: &str) -> (r: bool)
    ensures
        r == termina(s@, p@),
{
    let v = caracteres(s);
    let q = caracteres(p);
    if q.len() > v.len() {
        return false;
    }
    aparece_en(&v, &q, v.len() - q.len())
}

/// `s` con cada aparicion de `p` cambiada por `r`.
pub fn reemplazar(s: &str, p: &str, r: &str) -> (out: String)
    requires
        p@.len() > 0,
    ensures
        out@ == reemplazado(s@, p@, r@),
{
    let v = caracteres(s);
    let q = caracteres(p);
    let n: usize = v.len();
    let m: usize = q.len();
    let mut out = String::new();
    let mut i: usize = 0;
    assert(v@.skip(0) =~= s@);
    while i < n
        invariant
            0 <= i <= n == v@.len(),
            v@ == s@,
            q@ == p@,
            m == q@.len(),
            m > 0,
            out@ + reemplazado(v@.skip(i as int), p@, r@) == reemplazado(s@, p@, r@),
        decreases n - i,
    {
        let ghost resto = v@.skip(i as int);
        if aparece_en(&v, &q, i) {
            assert(resto.subrange(0, m as int) =~= v@.subrange(i as int, i + m));
            assert(resto.skip(m as int) =~= v@.skip(i + m));
            let ghost previo = out@;
            out.append(r);
            assert(out@ + reemplazado(v@.skip(i + m), p@, r@) =~= previo + (r@ + reemplazado(
                v@.skip(i + m),
                p@,
                r@,
            )));
            i = i + m;
        } else {
            assert(!aparece(resto, p@, 0)) by {
                if aparece(resto, p@, 0) {
                    assert(resto.subrange(0, m as int) =~= v@.subrange(i as int, i + m));
                }
            }
            assert(resto.drop_first() =~= v@.skip(i + 1));
            let ghost previo = out@;
            let c = v[i];
            out.push(c);
            assert(reemplazado(resto, p@, r@) =~= seq![c] + reemplazado(v@.skip(i + 1), p@, r@)) by {
                if resto.len() < p@.len() {
                    assert(v@.skip(i + 1).len() < p@.len());
                    assert(resto =~= seq![c] + v@.skip(i + 1));
                }
            }
            assert(out@ + reemplazado(v@.skip(i + 1), p@, r@) =~= previo + (seq![c] + reemplazado(
                v@.skip(i + 1),
                p@,
                r@,
            )));
            i = i + 1;
        }
    }
    assert(v@.skip(n as int) =~= Seq::<char>::empty());
    assert(out@ + Seq::<char>::empty() =~= out@);
    out
}

/// Las partes de `s` que separa `sep`.
pub fn partir(s: &str, sep: char) -> (r: Vec<String>)
    ensures
        textos(r@) == partes(s@, sep),
        r@.len() > 0,
{
    let v = caracteres(s);
    let n: usize = v.len();
    let mut hechas: Vec<String> = Vec::new();
    let mut actual = String::new();
    let mut i: usize = 0;
    assert(v@.skip(0) =~= s@);
    assert(textos(hechas@) + partes(s@, sep) =~= partes(s@, sep));
    while i < n
        invariant
            0 <= i <= n == v@.len(),
            v@ == s@,
            textos(hechas@) + partes_desde(actual@, v@.skip(i as int), sep) == partes(s@, sep),
        decreases n - i,
    {
        let ghost resto = v@.skip(i as int);
        assert(resto.drop_first() =~= v@.skip(i + 1));
        let c = v[i];
        if c == sep {
            let ghost antes = textos(hechas@);
            let ghost a = actual@;
            hechas.push(actual);
            actual = String::new();
            assert(textos(hechas@) =~= antes.push(a));
            assert(textos(hechas@) + partes_desde(seq![], v@.skip(i + 1), sep) =~= antes + (seq![a]
                + partes_desde(seq![], v@.skip(i + 1), sep)));
        } else {
            actual.push(c);
        }
        i = i + 1;
    }
    let ghost antes = textos(hechas@);
    let ghost a = actual@;
    assert(v@.skip(n as int).len() == 0);
    hechas.push(actual);
    assert(textos(hechas@) =~= antes + seq![a]);
    hechas
}

/// Los textos de `v` en orden con `sep` entre cada dos.
pub fn unir(v: &Vec<String>, sep: &str) -> (r: String)
    ensures
        r@ == unido(textos(v@), sep@),
{
    let n: usize = v.len();
    let mut r = String::new();
    let mut i: usize = 0;
    assert(textos(v@).take(0) =~= Seq::<Seq<char>>::empty());
    while i < n
        invariant
            0 <= i <= n == v@.len(),
            r@ == unido(textos(v@).take(i as int), sep@),
        decreases n - i,
    {
        let ghost sig = textos(v@).take(i + 1);
        assert(sig.drop_last() =~= textos(v@).take(i as int));
        assert(sig.last() == v@[i as int]@);
        if i > 0 {
            r.append(sep);
            r.append(v[i].as_str());
        } else {
            r.append(v[i].as_str());
            assert(r@ =~= v@[0]@);
        }
        i = i + 1;
    }
    assert(textos(v@).take(n as int) =~= textos(v@));
    r
}

/// `s` partido en la primera aparicion de `c`.
pub fn partir_una(s: &str, c: char) -> (r: Option<(String, String)>)
    ensures
        match r {
            Some(p) => partido(s@, c) == Some((p.0@, p.1@)),
            None => partido(s@, c) is None,
        },
{
    let v = caracteres(s);
    let mut q: Vec<char> = Vec::new();
    q.push(c);
    assert(q@ =~= seq![c]);
    proof {
        lema_indice(s@, seq![c], 0);
    }
    match buscar_desde(&v, &q, 0) {
        Some(i) => {
            let a = cadena(&v, 0, i);
            let n: usize = v.len();
            assert(aparece(s@, seq![c], i as int));
            let b = cadena(&v, i + 1, n);
            assert(a@ =~= s@.take(i as int));
            assert(b@ =~= s@.skip(i + 1));
            Some((a, b))
        },
        None => None,
    }
}

proof fn lema_tras_ultimo(s: Seq<char>, c: char, i: int)
    requires
        0 <= i <= s.len(),
        forall|j: int| i <= j < s.len() ==> s[j] != c,
        i > 0 ==> s[i - 1] == c,
    ensures
        tras_ultimo(s, c) == s.skip(i),
    decreases s.len(),
{
    if s.len() == 0 {
        assert(s.skip(i) =~= s);
    } else if i == s.len() {
        assert(s.skip(i) =~= Seq::<char>::empty());
    } else {
        lema_tras_ultimo(s.drop_last(), c, i);
        assert(s.drop_last().skip(i).push(s.last()) =~= s.skip(i));
    }
}

/// Lo que queda de `s` tras la ultima aparicion de `c`.
pub fn resto_tras_ultimo(s: &str, c: char) -> (r: String)
    ensures
        r@ == tras_ultimo(s@, c),
{
    let v = caracteres(s);
    let n: usize = v.len();
    let mut i: usize = n;
    while i > 0 && v[i - 1] != c
        invariant
            0 <= i <= n == v@.len(),
            forall|j: int| i <= j < n ==> v@[j] != c,
        decreases i,
    {
        i = i - 1;
    }
    proof {
        lema_tras_ultimo(s@, c, i as int);
    }
    assert(v@.subrange(i as int, n as int) =~= s@.skip(i as int));
    cadena(&v, i, n)
}

/// Las palabras de `s`.
pub fn separar_palabras(s: &str) -> (r: Vec<String>)
    ensures
        textos(r@) == palabras(s@),
{
    let v = caracteres(s);
    let n: usize = v.len();
    let mut hechas: Vec<String> = Vec::new();
    let mut actual = String::new();
    let mut i: usize = 0;
    assert(v@.skip(0) =~= s@);
    assert(textos(hechas@) + palabras(s@) =~= palabras(s@));
    while i < n
        invariant
            0 <= i <= n == v@.len(),
            v@ == s@,
            textos(hechas@) + palabras_desde(actual@, v@.skip(i as int)) == palabras(s@),
        decreases n - i,
    {
        let ghost resto = v@.skip(i as int);
        assert(resto.drop_first() =~= v@.skip(i + 1));
        let c = v[i];
        if blanco(c) {
            if actual.as_str().is_empty() {
                assert(actual@ =~= seq![]);
            } else {
                let ghost antes = textos(hechas@);
                let ghost a = actual@;
                hechas.push(actual);
                actual = String::new();
                assert(textos(hechas@) =~= antes.push(a));
                assert(textos(hechas@) + palabras_desde(seq![], v@.skip(i + 1)) =~= antes + (seq![a]
                    + palabras_desde(seq![], v@.skip(i + 1))));
            }
        } else {
            actual.push(c);
        }
        i = i + 1;
    }
    assert(v@.skip(n as int).len() == 0);
    if !actual.as_str().is_empty() {
        let ghost antes = textos(hechas@);
        let ghost a = actual@;
        hechas.push(actual);
        assert(textos(hechas@) =~= antes + seq![a]);
    } else {
        assert(textos(hechas@) + Seq::<Seq<char>>::empty() =~= textos(hechas@));
    }
    hechas
}

/// Las lineas de `s`.
pub fn separar_lineas(s: &str) -> (r: Vec<String>)
    ensures
        textos(r@) == lineas(s@),
{
    let v = caracteres(s);
    let n: usize = v.len();
    let mut hechas: Vec<String> = Vec::new();
    let mut ini: usize = 0;
    let mut i: usize = 0;
    assert(v@.skip(0) =~= s@);
    assert(v@.subrange(0, 0) =~= seq![]);
    assert(textos(hechas@) + lineas(s@) =~= lineas(s@));
    while i < n
        invariant
            0 <= ini <= i <= n == v@.len(),
            v@ == s@,
            textos(hechas@) + lineas_desde(v@.subrange(ini as int, i as int), v@.skip(i as int)) == lineas(s@),
        decreases n - i,
    {
        let ghost resto = v@.skip(i as int);
        assert(resto.drop_first() =~= v@.skip(i + 1));
        let ghost actual = v@.subrange(ini as int, i as int);
        if v[i] == '\n' {
            let ghost antes = textos(hechas@);
            let fin: usize = if i > ini && v[i - 1] == '\r' {
                i - 1
            } else {
                i
            };
            let l = cadena(&v, ini, fin);
            assert(l@ =~= sin_retorno(actual));
            hechas.push(l);
            assert(textos(hechas@) =~= antes.push(sin_retorno(actual)));
            assert(textos(hechas@) + lineas_desde(seq![], v@.skip(i + 1)) =~= antes + (seq![
                sin_retorno(actual),
            ] + lineas_desde(seq![], v@.skip(i + 1))));
            ini = i + 1;
            assert(v@.subrange(ini as int, i + 1) =~= seq![]);
        } else {
            assert(v@.subrange(ini as int, i + 1) =~= actual.push(v@[i as int]));
        }
        i = i + 1;
    }
    assert(v@.skip(n as int).len() == 0);
    if ini < n {
        let ghost antes = textos(hechas@);
        let l = cadena(&v, ini, n);
        let ghost a = l@;
        hechas.push(l);
        assert(textos(hechas@) =~= antes + seq![a]);
    } else {
        assert(textos(hechas@) + Seq::<Seq<char>>::empty() =~= textos(hechas@));
    }
    hechas
}

/// Bytes que ocupa `s` en UTF-8.
pub fn largo_bytes(s: &str) -> (n: usize)
    ensures
        n == bytes_de(s@),
{
    proof {
        lema_bytes_utf8(s@);
    }
    s.as_bytes().len()
}

pub fn ancho_de(c: char) -> (n: usize)
    ensures
        n == ancho(c),
        1 <= n <= 4,
{
    let u = c as u32;
    if u < 0x80 {
        1
    } else if u < 0x800 {
        2
    } else if u < 0x10000 {
        3
    } else {
        4
    }
}

/// Cuantos caracteres de `v` desde `desde` ocupan exactamente `b` bytes.
pub fn posicion_byte(v: &Vec<char>, desde: usize, b: usize) -> (r: Option<usize>)
    requires
        desde <= v@.len(),
    ensures
        match r {
            Some(i) => indice_byte(v@.skip(desde as int), b as int) == Some(i as int),
            None => indice_byte(v@.skip(desde as int), b as int) is None,
        },
{
    let n: usize = v.len();
    let mut i: usize = desde;
    let mut falta: usize = b;
    let ghost s = v@.skip(desde as int);
    assert(v@.skip(i as int) =~= s);
    while i < n && falta > 0
        invariant
            desde <= i <= n == v@.len(),
            s == v@.skip(desde as int),
            indice_byte(s, b as int) == (match indice_byte(v@.skip(i as int), falta as int) {
                Some(k) => Some(k + (i - desde)),
                None => None::<int>,
            }),
        decreases n - i,
    {
        let w: usize = ancho_de(v[i]);
        assert(v@.skip(i as int).drop_first() =~= v@.skip(i + 1));
        if w > falta {
            assert(indice_byte(v@.skip(i + 1), falta - w) is None);
            return None;
        }
        falta = falta - w;
        i = i + 1;
    }
    if falta == 0 {
        Some(i - desde)
    } else {
        None
    }
}

/// Los bytes `a..b` de `s`, si ambos caen entre caracteres.
pub fn cortar_bytes(s: &str, a: usize, b: usize) -> (r: Option<String>)
    ensures
        match r {
            Some(t) => corte_bytes(s@, a as int, b as int) == Some(t@),
            None => corte_bytes(s@, a as int, b as int) is None,
        },
{
    let v = caracteres(s);
    proof {
        lema_indice_byte(s@, a as int);
        lema_indice_byte(s@, b as int);
        assert(v@.skip(0) =~= s@);
    }
    match (posicion_byte(&v, 0, a), posicion_byte(&v, 0, b)) {
        (Some(i), Some(j)) => {
            if i <= j {
                Some(cadena(&v, i, j))
            } else {
                None
            }
        },
        _ => None,
    }
}

/// `s` con `c` por delante hasta tener `n` caracteres.
pub fn rellenar(s: &str, n: usize, c: char) -> (r: String)
    ensures
        r@ == rellenado(s@, n as int, c),
{
    let largo: usize = s.unicode_len();
    let mut r = String::new();
    if largo < n {
        let falta: usize = n - largo;
        let mut i: usize = 0;
        while i < falta
            invariant
                0 <= i <= falta,
                r@ == Seq::new(i as nat, |k: int| c),
            decreases falta - i,
        {
            r.push(c);
            i = i + 1;
            assert(r@ =~= Seq::new(i as nat, |k: int| c));
        }
    }
    r.append(s);
    if largo >= n {
        assert(r@ =~= s@);
    }
    r
}

fn cifra_de(d: u64) -> (c: char)
    requires
        d < 10,
    ensures
        c == cifra(d as int),
{
    if d == 0 {
        '0'
    } else if d == 1 {
        '1'
    } else if d == 2 {
        '2'
    } else if d == 3 {
        '3'
    } else if d == 4 {
        '4'
    } else if d == 5 {
        '5'
    } else if d == 6 {
        '6'
    } else if d == 7 {
        '7'
    } else if d == 8 {
        '8'
    } else {
        '9'
    }
}

/// `n` en base diez.
pub fn texto_u64(n: u64) -> (r: String)
    ensures
        r@ == decimal(n as nat),
    decreases n,
{
    if n < 10 {
        let mut r = String::new();
        r.push(cifra_de(n));
        assert(r@ =~= seq![cifra(n as int)]);
        r
    } else {
        let mut r = texto_u64(n / 10);
        r.push(cifra_de(n % 10));
        r
    }
}

pub fn texto_usize(n: usize) -> (r: String)
    ensures
        r@ == decimal(n as nat),
{
    texto_u64(n as u64)
}

/// `n` en base diez, con signo si es negativo.
pub fn texto_i64(n: i64) -> (r: String)
    ensures
        r@ == decimal_signo(n as int),
{
    if n < 0 {
        let m: u64 = if n == i64::MIN {
            9223372036854775808
        } else {
            (-n) as u64
        };
        let mut r = String::new();
        r.push('-');
        r.append(texto_u64(m).as_str());
        assert(r@ =~= seq!['-'] + decimal(m as nat));
        r
    } else {
        texto_u64(n as u64)
    }
}

/// `a` seguido de `b`.
pub fn mas(a: String, b: &str) -> (r: String)
    ensures
        r@ == a@ + b@,
{
    let mut r = a;
    r.append(b);
    r
}

/// `n` en base diez con al menos `w` cifras.
pub fn texto_ancho(n: u64, w: usize) -> (r: String)
    ensures
        r@ == decimal_ancho(n as nat, w as int),
{
    let t = texto_u64(n);
    rellenar(t.as_str(), w, '0')
}

/// El numero que escriben las cifras de `v` desde `desde`, si las hay y no pasa
/// de `max`.
fn leer_cifras(v: &Vec<char>, desde: usize, max: u64) -> (r: Option<u64>)
    requires
        desde <= v@.len(),
    ensures
        match r {
            Some(n) => desde < v@.len() && son_cifras(v@.skip(desde as int)) && valor(
                v@.skip(desde as int),
            ) == n && n <= max,
            None => !(desde < v@.len() && son_cifras(v@.skip(desde as int)) && valor(
                v@.skip(desde as int),
            ) <= max),
        },
{
    let ghost s = v@.skip(desde as int);
    let n: usize = v.len();
    if desde == n {
        return None;
    }
    let mut i: usize = desde;
    let mut acc: u64 = 0;
    assert(s.take(0) =~= Seq::<char>::empty());
    let mut pasado: bool = false;
    while i < n
        invariant
            desde <= i <= n == v@.len(),
            s == v@.skip(desde as int),
            forall|k: int| 0 <= k < i - desde ==> es_cifra(#[trigger] s[k]),
            !pasado ==> valor(s.take(i - desde)) == acc && acc <= max,
            pasado ==> valor(s.take(i - desde)) > max,
        decreases n - i,
    {
        let c = v[i];
        if !('0' <= c && c <= '9') {
            assert(!es_cifra(s[i - desde]));
            return None;
        }
        let d: u64 = (c as u32 - '0' as u32) as u64;
        assert(s.take(i - desde + 1).drop_last() =~= s.take(i - desde));
        assert(s.take(i - desde + 1).last() == c);
        assert(valor(s.take(i - desde + 1)) == valor(s.take(i - desde)) * 10 + d);
        if !pasado {
            if acc > (max / 10) || (acc == max / 10 && d > max % 10) {
                pasado = true;
            } else {
                acc = acc * 10 + d;
            }
        }
        i = i + 1;
    }
    assert(s.take(n - desde) =~= s);
    if pasado {
        None
    } else {
        Some(acc)
    }
}

/// El numero sin signo que escribe `s`, si no pasa de `max`.
pub fn leer_natural(s: &str, max: u64) -> (r: Option<u64>)
    ensures
        match r {
            Some(n) => natural_leido(s@, max as int) == Some(n as int) && n <= max,
            None => natural_leido(s@, max as int) is None,
        },
{
    let v = caracteres(s);
    if v.len() > 1 && v[0] == '+' {
        assert(v@.skip(1) =~= s@.drop_first());
        leer_cifras(&v, 1, max)
    } else {
        assert(v@.skip(0) =~= s@);
        leer_cifras(&v, 0, max)
    }
}

/// El numero con signo de 32 bits que escribe `s`.
pub fn leer_i32(s: &str) -> (r: Option<i32>)
    ensures
        match r {
            Some(n) => entero_leido(s@, i32::MIN as int, i32::MAX as int) == Some(n as int),
            None => entero_leido(s@, i32::MIN as int, i32::MAX as int) is None,
        },
{
    let v = caracteres(s);
    if v.len() > 1 && v[0] == '-' {
        assert(v@.skip(1) =~= s@.drop_first());
        match leer_cifras(&v, 1, 2147483648) {
            Some(n) => Some((-(n as i64)) as i32),
            None => None,
        }
    } else {
        match leer_natural(s, 2147483647) {
            Some(n) => Some(n as i32),
            None => None,
        }
    }
}

// ---------------------------------------------------------------------------
// Leyes
// ---------------------------------------------------------------------------

/// Los caracteres visibles de ASCII no son blancos; el espacio, el tabulador, los finales de
/// linea y el espacio duro si.
pub proof fn ley_blancos(c: char)
    ensures
        0x21 <= c as u32 <= 0x7E ==> !es_blanco(c),
        es_blanco(' ') && es_blanco('\t') && es_blanco('\n') && es_blanco('\r'),
        es_blanco('\u{A0}') && es_blanco('\u{85}') && es_blanco('\u{3000}'),
        es_blanco(c) && (c as u32) < 0x80 ==> c == ' ' || 9 <= c as u32 <= 13,
        0xC0 <= c as u32 <= 0x167F ==> !es_blanco(c),
        c as u32 > 0x3000 ==> !es_blanco(c),
{
}

/// Todo `s` son blancos.
pub open spec fn todo_blanco(s: Seq<char>) -> bool {
    forall|i: int| 0 <= i < s.len() ==> es_blanco(#[trigger] s[i])
}

/// `s` no empieza ni acaba en blanco.
pub open spec fn sin_bordes_blancos(s: Seq<char>) -> bool {
    s.len() > 0 ==> !es_blanco(s[0]) && !es_blanco(s.last())
}

proof fn lema_izq_blancos(a: Seq<char>, s: Seq<char>)
    requires
        todo_blanco(a),
        s.len() > 0 ==> !es_blanco(s[0]),
    ensures
        sin_blancos_izq(a + s) == s,
    decreases a.len(),
{
    if a.len() == 0 {
        assert(a + s =~= s);
    } else {
        let t = a.drop_first();
        assert((a + s).drop_first() =~= t + s);
        assert((a + s)[0] == a[0]);
        assert forall|i: int| 0 <= i < t.len() implies es_blanco(#[trigger] t[i]) by {
            assert(t[i] == a[i + 1]);
        }
        lema_izq_blancos(t, s);
    }
}

proof fn lema_der_blancos(s: Seq<char>, b: Seq<char>)
    requires
        todo_blanco(b),
        s.len() > 0 ==> !es_blanco(s.last()),
    ensures
        sin_blancos_der(s + b) == s,
    decreases b.len(),
{
    if b.len() == 0 {
        assert(s + b =~= s);
    } else {
        let t = b.drop_last();
        assert((s + b).drop_last() =~= s + t);
        assert((s + b).last() == b.last());
        assert(es_blanco(b[b.len() - 1]));
        assert forall|i: int| 0 <= i < t.len() implies es_blanco(#[trigger] t[i]) by {
            assert(t[i] == b[i]);
        }
        lema_der_blancos(s, t);
    }
}

/// Recortar quita los blancos que haya delante y detras, y nada mas: lo de dentro queda
/// entero, sea cual sea su largo.
pub proof fn ley_recorte(a: Seq<char>, s: Seq<char>, b: Seq<char>)
    requires
        todo_blanco(a),
        todo_blanco(b),
        sin_bordes_blancos(s),
    ensures
        recortado(a + s + b) == s,
        recortado(s) == s,
{
    let nada = Seq::<char>::empty();
    assert(nada + s + nada =~= s);
    assert(nada + s =~= s);
    assert(a + s + b =~= a + (s + b));
    if s.len() > 0 {
        lema_izq_blancos(a, s + b);
        lema_der_blancos(s, b);
        lema_izq_blancos(nada, s);
        lema_der_blancos(s, nada);
    } else {
        assert(s =~= nada);
        let todo = a + b;
        assert(a + s + b =~= todo + nada);
        assert forall|i: int| 0 <= i < todo.len() implies es_blanco(#[trigger] todo[i]) by {
            if i < a.len() {
                assert(todo[i] == a[i]);
            } else {
                assert(todo[i] == b[i - a.len()]);
            }
        }
        lema_izq_blancos(todo, nada);
    }
}

/// Todo texto es lo que queda al recortarlo, entre blancos.
pub proof fn ley_recorte_parte(s: Seq<char>) -> (p: (Seq<char>, Seq<char>))
    ensures
        todo_blanco(p.0),
        todo_blanco(p.1),
        sin_bordes_blancos(recortado(s)),
        s == p.0 + recortado(s) + p.1,
{
    let a = lema_parte_izq(s);
    let t = sin_blancos_izq(s);
    let b = lema_parte_der(t);
    assert(s =~= a + recortado(s) + b);
    (a, b)
}

proof fn lema_parte_izq(s: Seq<char>) -> (a: Seq<char>)
    ensures
        todo_blanco(a),
        s == a + sin_blancos_izq(s),
        sin_blancos_izq(s).len() > 0 ==> !es_blanco(sin_blancos_izq(s)[0]),
    decreases s.len(),
{
    if s.len() > 0 && es_blanco(s[0]) {
        let b = lema_parte_izq(s.drop_first());
        let a = seq![s[0]] + b;
        assert forall|i: int| 0 <= i < a.len() implies es_blanco(#[trigger] a[i]) by {
            if i > 0 {
                assert(a[i] == b[i - 1]);
            }
        }
        let r = sin_blancos_izq(s.drop_first());
        assert(s.drop_first() == b + r);
        assert(s =~= seq![s[0]] + s.drop_first());
        assert(seq![s[0]] + (b + r) =~= a + r);
        a
    } else {
        let a = Seq::<char>::empty();
        assert(s =~= a + s);
        a
    }
}

proof fn lema_parte_der(s: Seq<char>) -> (b: Seq<char>)
    ensures
        todo_blanco(b),
        s == sin_blancos_der(s) + b,
        sin_blancos_der(s).len() > 0 ==> !es_blanco(sin_blancos_der(s).last()),
        sin_blancos_der(s).len() > 0 ==> sin_blancos_der(s)[0] == s[0],
    decreases s.len(),
{
    if s.len() > 0 && es_blanco(s.last()) {
        let c = lema_parte_der(s.drop_last());
        let b = c.push(s.last());
        assert forall|i: int| 0 <= i < b.len() implies es_blanco(#[trigger] b[i]) by {
            if i < c.len() {
                assert(b[i] == c[i]);
            }
        }
        let r = sin_blancos_der(s.drop_last());
        assert(s.drop_last() == r + c);
        assert(s =~= s.drop_last().push(s.last()));
        assert((r + c).push(s.last()) =~= r + b);
        b
    } else {
        let b = Seq::<char>::empty();
        assert(s =~= s + b);
        b
    }
}

/// Un texto entre otros dos esta en el conjunto, y esta al comienzo si no lleva nada delante
/// y al final si no lleva nada detras.
pub proof fn ley_contiene(a: Seq<char>, p: Seq<char>, b: Seq<char>)
    ensures
        aparece(a + p + b, p, a.len() as int),
        contiene(a + p + b, p),
        empieza(p + b, p),
        termina(a + p, p),
        a.len() < p.len() ==> !contiene(a, p) && !empieza(a, p) && !termina(a, p),
{
    let s = a + p + b;
    assert(s.subrange(a.len() as int, (a.len() + p.len()) as int) =~= p);
    assert(aparece(s, p, a.len() as int));
    assert((p + b).subrange(0, p.len() as int) =~= p);
    assert((a + p).subrange(a.len() as int, (a + p).len() as int) =~= p);
}

/// Lo que se contiene tiene algo delante y algo detras, y nada mas.
pub proof fn ley_contenido_parte(s: Seq<char>, p: Seq<char>)
    ensures
        contiene(s, p) <==> exists|a: Seq<char>, b: Seq<char>| s == #[trigger] (a + p + b),
        empieza(s, p) <==> p.len() <= s.len() && s.take(p.len() as int) == p,
        termina(s, p) <==> p.len() <= s.len() && s.skip(s.len() - p.len()) == p,
{
    if contiene(s, p) {
        let i = choose|i: int| aparece(s, p, i);
        let a = s.take(i);
        let b = s.skip(i + p.len());
        assert(s =~= a + p + b);
    }
    if exists|a: Seq<char>, b: Seq<char>| s == #[trigger] (a + p + b) {
        let (a, b) = choose|a: Seq<char>, b: Seq<char>| s == #[trigger] (a + p + b);
        ley_contiene(a, p, b);
    }
    if p.len() <= s.len() {
        assert(s.take(p.len() as int) =~= s.subrange(0, p.len() as int));
        assert(s.skip(s.len() - p.len()) =~= s.subrange(s.len() - p.len(), s.len() as int));
    }
}

/// Reemplazar cambia la primera aparicion, deja lo de delante como esta y sigue con lo de
/// detras; sin apariciones no cambia nada.
pub proof fn ley_reemplazo(s: Seq<char>, p: Seq<char>, r: Seq<char>)
    requires
        p.len() > 0,
    ensures
        match indice(s, p, 0) {
            Some(i) => 0 <= i && i + p.len() <= s.len() && reemplazado(s, p, r) == s.take(i) + r
                + reemplazado(s.skip(i + p.len()), p, r),
            None => reemplazado(s, p, r) == s,
        },
    decreases s.len(),
{
    lema_indice(s, p, 0);
    if s.len() < p.len() {
    } else if aparece(s, p, 0) {
        assert(s.take(0) + r =~= r);
        assert(indice(s, p, 0) == Some(0int));
    } else {
        let t = s.drop_first();
        ley_reemplazo(t, p, r);
        lema_indice(t, p, 0);
        assert forall|j: int| 0 <= j implies aparece(t, p, j) == aparece(s, p, j + 1) by {
            if j + 1 + p.len() <= s.len() {
                assert(t.subrange(j, j + p.len()) =~= s.subrange(j + 1, j + 1 + p.len()));
            }
        }
        match indice(t, p, 0) {
            Some(j) => {
                assert(aparece(s, p, j + 1));
                let i = match indice(s, p, 0) {
                    Some(i) => i,
                    None => 0,
                };
                if i < j + 1 {
                    assert(aparece(t, p, i - 1));
                }
                assert(i == j + 1);
                assert(t.skip(j + p.len()) =~= s.skip(i + p.len()));
                assert(seq![s[0]] + (t.take(j) + r + reemplazado(t.skip(j + p.len()), p, r))
                    =~= s.take(i) + r + reemplazado(s.skip(i + p.len()), p, r));
            },
            None => {
                if let Some(i) = indice(s, p, 0) {
                    assert(aparece(t, p, i - 1));
                }
                assert(seq![s[0]] + t =~= s);
            },
        }
    }
}

/// Las partes de un texto no llevan el separador y, unidas con el, dan el texto.
pub proof fn ley_partes(s: Seq<char>, sep: char)
    ensures
        unido(partes(s, sep), seq![sep]) == s,
        forall|i: int| 0 <= i < partes(s, sep).len() ==> !(#[trigger] partes(s, sep)[i]).contains(sep),
        partes(s, sep).len() > 0,
{
    lema_partes_unidas(seq![], s, sep);
    assert(Seq::<char>::empty() + s =~= s);
}

pub proof fn lema_unido_primero(x: Seq<char>, v: Seq<Seq<char>>, sep: Seq<char>)
    requires
        v.len() > 0,
    ensures
        unido(seq![x] + v, sep) == x + sep + unido(v, sep),
    decreases v.len(),
{
    let w = seq![x] + v;
    assert(w.last() == v.last());
    if v.len() == 1 {
        assert(w.drop_last() =~= seq![x]);
        assert(unido(w.drop_last(), sep) == x);
    } else {
        assert(w.drop_last() =~= seq![x] + v.drop_last());
        lema_unido_primero(x, v.drop_last(), sep);
        assert(x + sep + unido(v.drop_last(), sep) + sep + v.last() =~= x + sep + (unido(
            v.drop_last(),
            sep,
        ) + sep + v.last()));
    }
}

proof fn lema_partes_unidas(actual: Seq<char>, s: Seq<char>, sep: char)
    requires
        !actual.contains(sep),
    ensures
        unido(partes_desde(actual, s, sep), seq![sep]) == actual + s,
        forall|i: int|
            0 <= i < partes_desde(actual, s, sep).len() ==> !(#[trigger] partes_desde(
                actual,
                s,
                sep,
            )[i]).contains(sep),
        partes_desde(actual, s, sep).len() > 0,
    decreases s.len(),
{
    let ps = partes_desde(actual, s, sep);
    if s.len() == 0 {
        assert(actual + s =~= actual);
    } else if s[0] == sep {
        lema_partes_unidas(seq![], s.drop_first(), sep);
        let qs = partes_desde(seq![], s.drop_first(), sep);
        lema_unido_primero(actual, qs, seq![sep]);
        assert(actual + seq![sep] + (Seq::<char>::empty() + s.drop_first()) =~= actual + s);
        assert forall|i: int| 0 <= i < ps.len() implies !(#[trigger] ps[i]).contains(sep) by {
            if i > 0 {
                assert(ps[i] == qs[i - 1]);
            }
        }
    } else {
        let b = actual.push(s[0]);
        assert forall|k: int| 0 <= k < b.len() implies b[k] != sep by {
            if k < actual.len() {
                assert(b[k] == actual[k]);
                assert(actual.contains(actual[k]));
            }
        }
        lema_partes_unidas(b, s.drop_first(), sep);
        assert(b + s.drop_first() =~= actual + s);
    }
}

/// Lo que sigue al ultimo separador no lo lleva, y delante no hay nada o algo que acaba en
/// el separador.
pub proof fn ley_tras_ultimo(s: Seq<char>, c: char)
    ensures
        ({
            let t = tras_ultimo(s, c);
            &&& !t.contains(c)
            &&& t.len() <= s.len()
            &&& s.skip(s.len() - t.len()) == t
            &&& t.len() < s.len() ==> s[s.len() - t.len() - 1] == c
        }),
    decreases s.len(),
{
    let t = tras_ultimo(s, c);
    if s.len() > 0 && s.last() != c {
        ley_tras_ultimo(s.drop_last(), c);
        let u = tras_ultimo(s.drop_last(), c);
        assert forall|k: int| 0 <= k < t.len() implies t[k] != c by {
            if k < u.len() {
                assert(t[k] == u[k]);
                assert(u.contains(u[k]));
            }
        }
        let v = s.skip(s.len() - t.len());
        assert forall|k: int| 0 <= k < t.len() implies v[k] == t[k] by {
            if k < u.len() {
                assert(s.drop_last().skip(s.drop_last().len() - u.len())[k] == u[k]);
            }
        }
        assert(v =~= t);
    } else {
        assert(s.skip(s.len() - t.len()) =~= t);
    }
}

/// Partir en un caracter da lo de delante, que no lo lleva, y todo lo de detras; si no esta,
/// no se parte.
pub proof fn ley_partido(s: Seq<char>, c: char)
    ensures
        match partido(s, c) {
            Some(p) => s == p.0 + seq![c] + p.1 && !p.0.contains(c),
            None => !s.contains(c),
        },
{
    lema_indice(s, seq![c], 0);
    match indice(s, seq![c], 0) {
        Some(i) => {
            assert(s.subrange(i, i + 1)[0] == c);
            assert(s =~= s.take(i) + seq![c] + s.skip(i + 1));
            assert forall|k: int| 0 <= k < i implies s.take(i)[k] != c by {
                if s[k] == c {
                    assert(s.subrange(k, k + 1) =~= seq![c]);
                    assert(aparece(s, seq![c], k));
                }
            }
        },
        None => {
            assert forall|k: int| 0 <= k < s.len() implies s[k] != c by {
                if s[k] == c {
                    assert(s.subrange(k, k + 1) =~= seq![c]);
                    assert(aparece(s, seq![c], k));
                }
            }
        },
    }
}

/// Sin el caracter en los extremos, y quitado solo de ahi.
pub proof fn ley_recorte_car(s: Seq<char>, c: char)
    ensures
        ({
            let t = recortado_car(s, c);
            &&& t.len() > 0 ==> t[0] != c && t.last() != c
            &&& s.len() > 0 && s[0] != c && s.last() != c ==> t == s
            &&& exists|i: int, j: int|
                0 <= i <= j <= s.len() && t == #[trigger] s.subrange(i, j) && forall|k: int|
                    0 <= k < i || j <= k < s.len() ==> #[trigger] s[k] == c
        }),
{
    let i = lema_car_izq(s, c);
    let u = sin_car_izq(s, c);
    let n = lema_car_der(u, c);
    let t = recortado_car(s, c);
    let j = i + n;
    assert(t =~= s.subrange(i, j));
    assert forall|k: int| 0 <= k < i || j <= k < s.len() implies #[trigger] s[k] == c by {
        if k >= j {
            assert(u[k - i] == c);
        }
    }
}

proof fn lema_car_izq(s: Seq<char>, c: char) -> (i: int)
    ensures
        0 <= i <= s.len(),
        sin_car_izq(s, c) == s.skip(i),
        forall|k: int| 0 <= k < i ==> #[trigger] s[k] == c,
        i < s.len() ==> s[i] != c,
    decreases s.len(),
{
    if s.len() > 0 && s[0] == c {
        let j = lema_car_izq(s.drop_first(), c);
        assert(s.drop_first().skip(j) =~= s.skip(j + 1));
        assert forall|k: int| 0 <= k < j + 1 implies #[trigger] s[k] == c by {
            if k > 0 {
                assert(s.drop_first()[k - 1] == c);
            }
        }
        j + 1
    } else {
        assert(s.skip(0) =~= s);
        0
    }
}

proof fn lema_car_der(s: Seq<char>, c: char) -> (n: int)
    ensures
        0 <= n <= s.len(),
        sin_car_der(s, c) == s.take(n),
        forall|k: int| n <= k < s.len() ==> #[trigger] s[k] == c,
        n > 0 ==> s[n - 1] != c,
    decreases s.len(),
{
    if s.len() > 0 && s.last() == c {
        let n = lema_car_der(s.drop_last(), c);
        assert(s.drop_last().take(n) =~= s.take(n));
        assert forall|k: int| n <= k < s.len() implies #[trigger] s[k] == c by {
            if k < s.len() - 1 {
                assert(s.drop_last()[k] == c);
            }
        }
        n
    } else {
        assert(s.take(s.len() as int) =~= s);
        s.len() as int
    }
}

/// Ninguna palabra es vacia ni lleva blancos, y entre todas tienen, en su orden, todos los
/// caracteres que no son blancos.
pub proof fn ley_palabras(s: Seq<char>)
    ensures
        forall|i: int|
            0 <= i < palabras(s).len() ==> (#[trigger] palabras(s)[i]).len() > 0 && sin_blanco_alguno(
                palabras(s)[i],
            ),
        unido(palabras(s), seq![]) == sin_blancos(s),
{
    lema_palabras(seq![], s);
    assert(Seq::<char>::empty() + sin_blancos(s) =~= sin_blancos(s));
}

/// Ningun caracter de `s` es blanco.
pub open spec fn sin_blanco_alguno(s: Seq<char>) -> bool {
    forall|i: int| 0 <= i < s.len() ==> !es_blanco(#[trigger] s[i])
}

/// Los caracteres de `s` que no son blancos.
pub open spec fn sin_blancos(s: Seq<char>) -> Seq<char>
    decreases s.len(),
{
    if s.len() == 0 {
        seq![]
    } else if es_blanco(s[0]) {
        sin_blancos(s.drop_first())
    } else {
        seq![s[0]] + sin_blancos(s.drop_first())
    }
}

proof fn lema_palabras(actual: Seq<char>, s: Seq<char>)
    requires
        sin_blanco_alguno(actual),
    ensures
        ({
            let ps = palabras_desde(actual, s);
            &&& forall|i: int|
                0 <= i < ps.len() ==> (#[trigger] ps[i]).len() > 0 && sin_blanco_alguno(ps[i])
            &&& unido(ps, seq![]) == actual + sin_blancos(s)
        }),
    decreases s.len(),
{
    let nada = Seq::<char>::empty();
    let ps = palabras_desde(actual, s);
    if s.len() == 0 {
        assert(actual + sin_blancos(s) =~= actual);
        if actual.len() == 0 {
            assert(actual =~= nada);
        }
    } else if es_blanco(s[0]) {
        lema_palabras(nada, s.drop_first());
        let qs = palabras_desde(nada, s.drop_first());
        assert(nada + sin_blancos(s.drop_first()) =~= sin_blancos(s.drop_first()));
        if actual.len() == 0 {
            assert(actual + sin_blancos(s) =~= sin_blancos(s));
        } else {
            assert forall|i: int| 0 <= i < ps.len() implies (#[trigger] ps[i]).len() > 0
                && sin_blanco_alguno(ps[i]) by {
                if i > 0 {
                    assert(ps[i] == qs[i - 1]);
                }
            }
            if qs.len() > 0 {
                lema_unido_primero(actual, qs, nada);
                assert(actual + nada + unido(qs, nada) =~= actual + sin_blancos(s));
            } else {
                assert(ps =~= seq![actual]);
                assert(sin_blancos(s) =~= nada);
                assert(actual + sin_blancos(s) =~= actual);
            }
        }
    } else {
        let b = actual.push(s[0]);
        assert forall|k: int| 0 <= k < b.len() implies !es_blanco(#[trigger] b[k]) by {
            if k < actual.len() {
                assert(b[k] == actual[k]);
            }
        }
        lema_palabras(b, s.drop_first());
        assert(b + sin_blancos(s.drop_first()) =~= actual + sin_blancos(s));
    }
}

/// Las lineas de un texto: una que acaba en salto va sola y delante de las del resto, sin el
/// salto ni el retorno que lo preceda; la ultima puede no tenerlo.
pub proof fn ley_lineas(l: Seq<char>, resto: Seq<char>)
    requires
        !l.contains('\n'),
    ensures
        lineas(l + seq!['\n'] + resto) == seq![sin_retorno(l)] + lineas(resto),
        lineas(l + seq!['\r', '\n'] + resto) == seq![l] + lineas(resto),
        l.len() > 0 ==> lineas(l) == seq![l],
        l.len() == 0 ==> lineas(l).len() == 0,
{
    let nada = Seq::<char>::empty();
    assert(l + seq!['\n'] + resto =~= l + (seq!['\n'] + resto));
    lema_lineas_tramo(nada, l, seq!['\n'] + resto);
    assert((seq!['\n'] + resto).drop_first() =~= resto);
    assert(nada + l =~= l);
    let m = l.push('\r');
    assert forall|k: int| 0 <= k < m.len() implies m[k] != '\n' by {
        if k < l.len() {
            assert(l.contains(l[k]));
        }
    }
    assert(l + seq!['\r', '\n'] + resto =~= m + (seq!['\n'] + resto));
    lema_lineas_tramo(nada, m, seq!['\n'] + resto);
    assert(nada + m =~= m);
    assert(m.drop_last() =~= l);
    assert(l + nada =~= l);
    lema_lineas_tramo(nada, l, nada);
}

proof fn lema_lineas_tramo(actual: Seq<char>, a: Seq<char>, b: Seq<char>)
    requires
        !a.contains('\n'),
    ensures
        lineas_desde(actual, a + b) == lineas_desde(actual + a, b),
    decreases a.len(),
{
    if a.len() == 0 {
        assert(a + b =~= b);
        assert(actual + a =~= actual);
    } else {
        let t = a.drop_first();
        assert((a + b).drop_first() =~= t + b);
        assert((a + b)[0] == a[0]);
        assert(a.contains(a[0]));
        assert forall|k: int| 0 <= k < t.len() implies t[k] != '\n' by {
            assert(a.contains(a[k + 1]));
        }
        lema_lineas_tramo(actual.push(a[0]), t, b);
        assert(actual.push(a[0]) + t =~= actual + a);
    }
}

/// Rellenar pone el caracter delante hasta llegar al largo, y nunca quita nada.
pub proof fn ley_relleno(s: Seq<char>, n: int, c: char)
    ensures
        ({
            let r = rellenado(s, n, c);
            &&& r.len() == (if s.len() >= n {
                s.len() as int
            } else {
                n
            })
            &&& r.skip(r.len() - s.len()) == s
            &&& forall|i: int| 0 <= i < r.len() - s.len() ==> #[trigger] r[i] == c
        }),
{
    let r = rellenado(s, n, c);
    assert(r.skip(r.len() - s.len()) =~= s);
}

/// Un numero escrito en base diez son cifras que valen ese numero, sin ceros de mas, y al
/// leerlo se recupera.
pub proof fn ley_decimal(n: nat, max: int)
    ensures
        decimal(n).len() > 0,
        son_cifras(decimal(n)),
        valor(decimal(n)) == n,
        n > 0 ==> decimal(n)[0] != '0',
        n <= max ==> natural_leido(decimal(n), max) == Some(n as int),
        n > max ==> natural_leido(decimal(n), max) is None,
        n <= max ==> entero_leido(decimal_signo(n as int), -max, max) == Some(n as int),
        0 < n <= max ==> entero_leido(decimal_signo(-n), -max, max) == Some(-n),
    decreases n,
{
    lema_decimal(n);
    let d = decimal(n);
    assert(es_cifra(d[0]));
    if n > 0 {
        let t = decimal_signo(-n);
        assert(t[0] == '-');
        assert(t.drop_first() =~= d);
    }
}

proof fn lema_decimal(n: nat)
    ensures
        decimal(n).len() > 0,
        son_cifras(decimal(n)),
        valor(decimal(n)) == n,
        n > 0 ==> decimal(n)[0] != '0',
    decreases n,
{
    reveal_with_fuel(valor, 2);
    let d = decimal(n);
    if n < 10 {
        assert(d.drop_last() =~= Seq::<char>::empty());
        assert(valor_cifra(cifra(n as int)) == n);
        assert(d.last() == cifra(n as int));
    } else {
        lema_decimal(n / 10);
        let p = decimal(n / 10);
        assert(d.drop_last() =~= p);
        assert(valor_cifra(cifra((n % 10) as int)) == n % 10);
        assert(d[0] == p[0]);
    }
}

/// Un texto ocupa tantos bytes como la suma de sus caracteres: uno los de ASCII y hasta
/// cuatro los demas.
pub proof fn ley_bytes(s: Seq<char>, c: char)
    ensures
        1 <= ancho(c) <= 4,
        (c as u32) < 0x80 <==> ancho(c) == 1,
        bytes_de(s.push(c)) == bytes_de(s) + ancho(c),
        s.len() == 0 ==> bytes_de(s) == 0,
        es_ascii(s) ==> bytes_de(s) == s.len(),
    decreases s.len(),
{
    let u = seq![c];
    assert(s.push(c) =~= s + u);
    lema_bytes_suma(s, u);
    assert(u.drop_first() =~= Seq::<char>::empty());
    assert(bytes_de(u) == ancho(c) + bytes_de(u.drop_first()));
    if s.len() > 0 && es_ascii(s) {
        let t = s.drop_first();
        assert forall|i: int| 0 <= i < t.len() implies (#[trigger] t[i] as u32) < 0x80 by {
            assert(t[i] == s[i + 1]);
        }
        ley_bytes(t, c);
        assert((s[0] as u32) < 0x80);
    }
}

/// Los bytes de un trozo son los que hay entre sus extremos; en ASCII es el mismo trozo.
pub proof fn ley_corte_bytes(s: Seq<char>, a: int, b: int)
    requires
        0 <= a <= b,
    ensures
        match corte_bytes(s, a, b) {
            Some(t) => exists|i: int, j: int|
                0 <= i <= j <= s.len() && t == #[trigger] s.subrange(i, j) && bytes_de(s.take(i)) == a
                    && bytes_de(s.take(j)) == b,
            None => true,
        },
        es_ascii(s) && b <= s.len() ==> corte_bytes(s, a, b) == Some(s.subrange(a, b)),
        es_ascii(s) && b > s.len() ==> corte_bytes(s, a, b) is None,
{
    lema_indice_byte(s, a);
    lema_indice_byte(s, b);
    if let Some(t) = corte_bytes(s, a, b) {
        let i = indice_byte(s, a)->0;
        let j = indice_byte(s, b)->0;
        assert(t == s.subrange(i, j));
    }
    if es_ascii(s) {
        lema_indice_ascii(s, a);
        lema_indice_ascii(s, b);
    }
}

proof fn lema_indice_ascii(s: Seq<char>, b: int)
    requires
        es_ascii(s),
        0 <= b,
    ensures
        indice_byte(s, b) == (if b <= s.len() {
            Some(b)
        } else {
            None
        }),
    decreases s.len(),
{
    if b > 0 && s.len() > 0 {
        let t = s.drop_first();
        assert forall|i: int| 0 <= i < t.len() implies (#[trigger] t[i] as u32) < 0x80 by {
            assert(t[i] == s[i + 1]);
        }
        lema_indice_ascii(t, b - 1);
        assert((s[0] as u32) < 0x80);
    }
}

/// Buscar en lo que queda de un texto es buscar en el texto desde ahi.
pub proof fn ley_indice_salto(s: Seq<char>, p: Seq<char>, k: int, desde: int)
    requires
        0 <= k <= s.len(),
        0 <= desde,
        p.len() > 0,
    ensures
        match indice(s.skip(k), p, desde) {
            Some(i) => indice(s, p, desde + k) == Some(i + k),
            None => indice(s, p, desde + k) is None,
        },
        forall|i: int| 0 <= i ==> (#[trigger] aparece(s.skip(k), p, i) <==> aparece(s, p, i + k)),
{
    let t = s.skip(k);
    assert forall|i: int| 0 <= i implies (#[trigger] aparece(t, p, i) <==> aparece(s, p, i + k)) by {
        if i + p.len() <= t.len() {
            assert(t.subrange(i, i + p.len()) =~= s.subrange(i + k, i + k + p.len()));
        }
    }
    lema_indice(t, p, desde);
    lema_indice(s, p, desde + k);
    match (indice(t, p, desde), indice(s, p, desde + k)) {
        (Some(i), Some(j)) => {
            assert(aparece(t, p, j - k));
            assert(aparece(s, p, i + k));
        },
        (Some(i), None) => {
            assert(aparece(s, p, i + k));
        },
        (None, Some(j)) => {
            assert(aparece(t, p, j - k));
        },
        (None, None) => {},
    }
}

/// La primera aparicion es la que no tiene otra delante.
pub proof fn ley_primera_aparicion(s: Seq<char>, p: Seq<char>, desde: int, i: int)
    requires
        0 <= desde <= i,
        p.len() > 0,
        aparece(s, p, i),
        forall|j: int| desde <= j < i ==> !aparece(s, p, j),
    ensures
        indice(s, p, desde) == Some(i),
{
    lema_indice(s, p, desde);
}

pub proof fn lema_sin_blancos_suma(a: Seq<char>, b: Seq<char>)
    ensures
        sin_blancos(a + b) == sin_blancos(a) + sin_blancos(b),
    decreases a.len(),
{
    if a.len() == 0 {
        assert(a + b =~= b);
        assert(sin_blancos(a) + sin_blancos(b) =~= sin_blancos(b));
    } else {
        assert((a + b).drop_first() =~= a.drop_first() + b);
        lema_sin_blancos_suma(a.drop_first(), b);
        if !es_blanco(a[0]) {
            assert(seq![a[0]] + (sin_blancos(a.drop_first()) + sin_blancos(b)) =~= (seq![a[0]]
                + sin_blancos(a.drop_first())) + sin_blancos(b));
        }
    }
}

pub proof fn lema_sin_blancos_nada(a: Seq<char>)
    requires
        todo_blanco(a),
    ensures
        sin_blancos(a).len() == 0,
    decreases a.len(),
{
    if a.len() > 0 {
        assert forall|i: int| 0 <= i < a.drop_first().len() implies es_blanco(
            #[trigger] a.drop_first()[i],
        ) by {
            assert(a.drop_first()[i] == a[i + 1]);
        }
        assert(es_blanco(a[0]));
        lema_sin_blancos_nada(a.drop_first());
    }
}

/// Unir con blancos no anade nada que no sea blanco.
pub proof fn ley_unido_con_blancos(v: Seq<Seq<char>>, sep: Seq<char>)
    requires
        todo_blanco(sep),
    ensures
        sin_blancos(unido(v, sep)) == sin_blancos(unido(v, seq![])),
    decreases v.len(),
{
    if v.len() > 1 {
        let nada = Seq::<char>::empty();
        let w = v.drop_last();
        ley_unido_con_blancos(w, sep);
        lema_sin_blancos_nada(sep);
        lema_sin_blancos_suma(unido(w, sep) + sep, v.last());
        lema_sin_blancos_suma(unido(w, sep), sep);
        lema_sin_blancos_suma(unido(w, nada) + nada, v.last());
        lema_sin_blancos_suma(unido(w, nada), nada);
        assert(sin_blancos(unido(w, sep)) + sin_blancos(sep) =~= sin_blancos(unido(w, sep)));
        assert(sin_blancos(unido(w, nada)) + sin_blancos(nada) =~= sin_blancos(unido(w, nada)));
    }
}

/// Quitar los blancos de los extremos no quita nada mas.
pub proof fn ley_recorte_sin_blancos(s: Seq<char>)
    ensures
        sin_blancos(recortado(s)) == sin_blancos(s),
{
    let p = ley_recorte_parte(s);
    let t = recortado(s);
    lema_sin_blancos_suma(p.0 + t, p.1);
    lema_sin_blancos_suma(p.0, t);
    lema_sin_blancos_nada(p.0);
    lema_sin_blancos_nada(p.1);
    assert(sin_blancos(p.0) + sin_blancos(t) + sin_blancos(p.1) =~= sin_blancos(t));
}

/// Un natural se lee con o sin el signo mas, y nunca con el menos; un texto vacio o con algo que
/// no sea una cifra no es un numero.
pub proof fn ley_natural(n: nat, max: int, s: Seq<char>)
    requires
        n <= max,
    ensures
        natural_leido(decimal(n), max) == Some(n as int),
        natural_leido(seq!['+'] + decimal(n), max) == Some(n as int),
        natural_leido(seq!['-'] + decimal(n), max) is None,
        natural_leido(seq![], max) is None,
        natural_leido(s, max) matches Some(v) ==> v <= max && s.len() > 0 && (son_cifras(s) || (s[0]
            == '+' && son_cifras(s.drop_first()))),
{
    ley_decimal(n, max);
    let p = seq!['+'] + decimal(n);
    let m = seq!['-'] + decimal(n);
    assert(p.drop_first() =~= decimal(n));
    assert(m[0] == '-');
    assert(!son_cifras(m)) by {
        assert(!es_cifra(m[0]));
    }
}

/// Son blancos los veinticinco caracteres que Unicode tiene por tales, y ninguno mas.
pub proof fn ley_todos_los_blancos(c: char)
    ensures
        es_blanco(c) <==> (9 <= c as u32 <= 13 || c as u32 == 0x20 || c as u32 == 0x85 || c as u32
            == 0xA0 || c as u32 == 0x1680 || 0x2000 <= c as u32 <= 0x200A || c as u32 == 0x2028
            || c as u32 == 0x2029 || c as u32 == 0x202F || c as u32 == 0x205F || c as u32 == 0x3000),
{
}

proof fn lema_palabra_tramo(actual: Seq<char>, a: Seq<char>, resto: Seq<char>)
    requires
        sin_blanco_alguno(a),
    ensures
        palabras_desde(actual, a + resto) == palabras_desde(actual + a, resto),
    decreases a.len(),
{
    if a.len() == 0 {
        assert(a + resto =~= resto);
        assert(actual + a =~= actual);
    } else {
        let t = a.drop_first();
        assert forall|i: int| 0 <= i < t.len() implies !es_blanco(#[trigger] t[i]) by {
            assert(t[i] == a[i + 1]);
        }
        assert(!es_blanco(a[0]));
        assert((a + resto).drop_first() =~= t + resto);
        lema_palabra_tramo(actual.push(a[0]), t, resto);
        assert(actual.push(a[0]) + t =~= actual + a);
    }
}

proof fn lema_palabras_blancos(b: Seq<char>, resto: Seq<char>)
    requires
        todo_blanco(b),
    ensures
        palabras_desde(seq![], b + resto) == palabras_desde(seq![], resto),
    decreases b.len(),
{
    if b.len() == 0 {
        assert(b + resto =~= resto);
    } else {
        let t = b.drop_first();
        assert forall|i: int| 0 <= i < t.len() implies es_blanco(#[trigger] t[i]) by {
            assert(t[i] == b[i + 1]);
        }
        assert(es_blanco(b[0]));
        assert((b + resto).drop_first() =~= t + resto);
        lema_palabras_blancos(t, resto);
    }
}

/// Las palabras se separan por los blancos que haya, sean los que sean, y salen en su orden.
pub proof fn ley_palabras_en_orden(w: Seq<char>, b: Seq<char>, resto: Seq<char>)
    requires
        w.len() > 0,
        b.len() > 0,
        sin_blanco_alguno(w),
        todo_blanco(b),
    ensures
        palabras(w) == seq![w],
        palabras(w + b + resto) == seq![w] + palabras(resto),
        palabras(b + resto) == palabras(resto),
{
    let nada = Seq::<char>::empty();
    lema_palabra_tramo(nada, w, nada);
    assert(w + nada =~= w);
    assert(nada + w =~= w);
    lema_palabra_tramo(nada, w, b + resto);
    assert(w + (b + resto) =~= w + b + resto);
    let t = b.drop_first();
    assert forall|i: int| 0 <= i < t.len() implies es_blanco(#[trigger] t[i]) by {
        assert(t[i] == b[i + 1]);
    }
    assert(es_blanco(b[0]));
    assert((b + resto).drop_first() =~= t + resto);
    lema_palabras_blancos(t, resto);
    lema_palabras_blancos(b, resto);
}

} // verus!
