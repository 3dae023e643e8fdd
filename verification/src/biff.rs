//! Los registros de un libro `.xls`: cuales estan enteros y dicen verdad de lo que ocupan.

use crate::libro;
use crate::libro::lee16;
use crate::libro::lee32;
use crate::libro::Flujo;
use crate::libro::FlujoVista;
use vstd::prelude::*;

verus! {

/// Lo que se sigue de un registro o de una serie de ellos.
#[derive(Debug, Clone, Copy, PartialEq, Eq, Structural)]
pub enum Marca {
    /// Dice ocupar lo que no ocupa: no se puede leer.
    Roto,
    /// Es un error, que se ve al leerlo: no se lee mas.
    Error,
    /// Es el ultimo.
    Fin,
    /// Se puede leer y se sigue.
    Sigue,
    /// Nombra una hoja que empieza en ese byte.
    Hoja(u32),
}

// ---------------------------------------------------------------------------
// Formulas
// ---------------------------------------------------------------------------

/// Lo que se sigue de una ficha de una formula.
#[derive(Debug, Clone, Copy, PartialEq, Eq, Structural)]
pub enum Ficha {
    /// No se puede leer.
    Rota,
    /// No se conoce: la formula no se lee mas.
    Corta,
    /// Ocupa esos bytes tras el primero.
    Larga(u32),
}

/// La ficha es de la clase `c`, en cualquiera de sus tres formas.
pub open spec fn clase(ptg: u8, c: u8) -> bool {
    ptg == c || ptg == c + 0x20 || ptg == c + 0x40
}

fn es_clase(ptg: u8, c: u8) -> (r: bool)
    requires
        c < 0x40,
    ensures
        r == clase(ptg, c),
{
    ptg == c || ptg == c + 0x20 || ptg == c + 0x40
}

/// Una ficha de `n` bytes en `o`, en una formula que acaba en `f`.
pub open spec fn fija(o: int, f: int, n: int) -> Ficha {
    if o + n <= f {
        Ficha::Larga(n as u32)
    } else {
        Ficha::Rota
    }
}

fn de_largo(o: usize, f: usize, n: u32) -> (r: Ficha)
    requires
        o <= f,
    ensures
        r == fija(o as int, f as int, n as int),
{
    if n as u64 <= (f - o) as u64 {
        Ficha::Larga(n)
    } else {
        Ficha::Rota
    }
}

/// Funciones con nombre en una formula.
pub const FUNCIONES: u32 = 485;

/// El codigo es el de un error de una celda.
pub open spec fn es_error(b: u8) -> bool {
    b == 0x00 || b == 0x07 || b == 0x0F || b == 0x17 || b == 0x1D || b == 0x24 || b == 0x2A || b
        == 0x2B
}

/// Una ficha de atributo, desde el byte que dice cual.
pub open spec fn atributo(s: Seq<u8>, o: int, f: int) -> Ficha {
    if o + 1 > f {
        Ficha::Rota
    } else if s[o] == 0x01 || s[o] == 0x02 || s[o] == 0x08 || s[o] == 0x10 || s[o] == 0x20 || s[o]
        == 0x21 {
        fija(o, f, 3)
    } else if s[o] == 0x04 {
        if o + 3 > f {
            Ficha::Rota
        } else {
            fija(o, f, 5 + 2 * libro::n16(s, o + 1))
        }
    } else if s[o] == 0x40 || s[o] == 0x41 {
        if o + 3 > f {
            Ficha::Rota
        } else if s[o + 1] > 6 {
            Ficha::Corta
        } else {
            Ficha::Larga(3)
        }
    } else {
        Ficha::Corta
    }
}

/// La ficha `ptg`, cuyos datos empiezan en `o`, en una formula que acaba en `f`. Las filas
/// se cuentan desde uno en dos bytes, y la ultima no tiene siguiente.
pub open spec fn ficha(s: Seq<u8>, ptg: u8, o: int, f: int) -> Ficha {
    if clase(ptg, 0x3a) {
        if o + 6 > f || libro::n16(s, o + 2) == 0xffff {
            Ficha::Rota
        } else {
            Ficha::Larga(6)
        }
    } else if clase(ptg, 0x3b) || clase(ptg, 0x3d) {
        fija(o, f, 10)
    } else if clase(ptg, 0x3c) || ptg == 0x39 || ptg == 0x59 {
        fija(o, f, 6)
    } else if ptg == 0x01 || clase(ptg, 0x2a) {
        fija(o, f, 4)
    } else if 0x03 <= ptg <= 0x16 {
        Ficha::Larga(0)
    } else if ptg == 0x17 {
        if o + 1 > f {
            Ficha::Rota
        } else {
            fija(o, f, 2 + s[o])
        }
    } else if ptg == 0x18 {
        fija(o, f, 5)
    } else if ptg == 0x19 {
        atributo(s, o, f)
    } else if ptg == 0x1c {
        if o + 1 > f {
            Ficha::Rota
        } else if es_error(s[o]) {
            Ficha::Larga(1)
        } else {
            Ficha::Corta
        }
    } else if ptg == 0x1d {
        fija(o, f, 1)
    } else if ptg == 0x1e {
        fija(o, f, 2)
    } else if ptg == 0x1f || clase(ptg, 0x25) || clase(ptg, 0x2b) {
        fija(o, f, 8)
    } else if clase(ptg, 0x20) {
        fija(o, f, 7)
    } else if clase(ptg, 0x21) {
        if o + 2 > f || libro::n16(s, o) == FUNCIONES {
            Ficha::Rota
        } else if libro::n16(s, o) > FUNCIONES {
            Ficha::Corta
        } else {
            Ficha::Larga(2)
        }
    } else if clase(ptg, 0x22) {
        if o + 3 > f {
            Ficha::Rota
        } else if libro::n16(s, o + 1) < FUNCIONES {
            Ficha::Larga(3)
        } else if s[o] == 0 {
            Ficha::Rota
        } else {
            Ficha::Corta
        }
    } else if clase(ptg, 0x23) {
        if o + 4 > f || libro::n32(s, o) == 0 {
            Ficha::Rota
        } else {
            Ficha::Larga(4)
        }
    } else if clase(ptg, 0x24) {
        if o + 4 > f || libro::n16(s, o) == 0xffff {
            Ficha::Rota
        } else {
            Ficha::Larga(4)
        }
    } else {
        Ficha::Corta
    }
}

/// La formula que va de `o` a `f` se puede leer.
pub open spec fn formula_sana(s: Seq<u8>, o: int, f: int) -> bool
    decreases f - o,
{
    if o >= f {
        true
    } else {
        match ficha(s, s[o], o + 1, f) {
            Ficha::Rota => false,
            Ficha::Corta => true,
            Ficha::Larga(n) => o + 1 + n <= f && formula_sana(s, o + 1 + n, f),
        }
    }
}

fn lee_atributo(s: &[u8], o: usize, f: usize) -> (r: Ficha)
    requires
        o <= f <= s@.len(),
    ensures
        r == atributo(s@, o as int, f as int),
{
    let quedan: usize = f - o;
    if quedan < 1 {
        return Ficha::Rota;
    }
    let e: u8 = s[o];
    if e == 0x01 || e == 0x02 || e == 0x08 || e == 0x10 || e == 0x20 || e == 0x21 {
        de_largo(o, f, 3)
    } else if e == 0x04 {
        if quedan < 3 {
            Ficha::Rota
        } else {
            de_largo(o, f, 5 + 2 * lee16(s, o + 1))
        }
    } else if e == 0x40 || e == 0x41 {
        if quedan < 3 {
            Ficha::Rota
        } else if s[o + 1] > 6 {
            Ficha::Corta
        } else {
            Ficha::Larga(3)
        }
    } else {
        Ficha::Corta
    }
}

fn lee_ficha(s: &[u8], ptg: u8, o: usize, f: usize) -> (r: Ficha)
    requires
        o <= f <= s@.len(),
    ensures
        r == ficha(s@, ptg, o as int, f as int),
{
    let quedan: usize = f - o;
    if es_clase(ptg, 0x3a) {
        if quedan < 6 || lee16(s, o + 2) == 0xffff {
            Ficha::Rota
        } else {
            Ficha::Larga(6)
        }
    } else if es_clase(ptg, 0x3b) || es_clase(ptg, 0x3d) {
        de_largo(o, f, 10)
    } else if es_clase(ptg, 0x3c) || ptg == 0x39 || ptg == 0x59 {
        de_largo(o, f, 6)
    } else if ptg == 0x01 || es_clase(ptg, 0x2a) {
        de_largo(o, f, 4)
    } else if 0x03 <= ptg && ptg <= 0x16 {
        Ficha::Larga(0)
    } else if ptg == 0x17 {
        if quedan < 1 {
            Ficha::Rota
        } else {
            de_largo(o, f, 2 + s[o] as u32)
        }
    } else if ptg == 0x18 {
        de_largo(o, f, 5)
    } else if ptg == 0x19 {
        lee_atributo(s, o, f)
    } else if ptg == 0x1c {
        if quedan < 1 {
            return Ficha::Rota;
        }
        let b: u8 = s[o];
        if b == 0x00 || b == 0x07 || b == 0x0F || b == 0x17 || b == 0x1D || b == 0x24 || b == 0x2A
            || b == 0x2B {
            Ficha::Larga(1)
        } else {
            Ficha::Corta
        }
    } else if ptg == 0x1d {
        de_largo(o, f, 1)
    } else if ptg == 0x1e {
        de_largo(o, f, 2)
    } else if ptg == 0x1f || es_clase(ptg, 0x25) || es_clase(ptg, 0x2b) {
        de_largo(o, f, 8)
    } else if es_clase(ptg, 0x20) {
        de_largo(o, f, 7)
    } else if es_clase(ptg, 0x21) {
        if quedan < 2 || lee16(s, o) == FUNCIONES {
            Ficha::Rota
        } else if lee16(s, o) > FUNCIONES {
            Ficha::Corta
        } else {
            Ficha::Larga(2)
        }
    } else if es_clase(ptg, 0x22) {
        if quedan < 3 {
            Ficha::Rota
        } else if lee16(s, o + 1) < FUNCIONES {
            Ficha::Larga(3)
        } else if s[o] == 0 {
            Ficha::Rota
        } else {
            Ficha::Corta
        }
    } else if es_clase(ptg, 0x23) {
        if quedan < 4 || lee32(s, o) == 0 {
            Ficha::Rota
        } else {
            Ficha::Larga(4)
        }
    } else if es_clase(ptg, 0x24) {
        if quedan < 4 || lee16(s, o) == 0xffff {
            Ficha::Rota
        } else {
            Ficha::Larga(4)
        }
    } else {
        Ficha::Corta
    }
}

fn lee_formula(s: &[u8], a: usize, f: usize) -> (r: bool)
    requires
        a <= f <= s@.len(),
    ensures
        r == formula_sana(s@, a as int, f as int),
{
    let mut o: usize = a;
    while o < f
        invariant
            a <= o <= f <= s@.len(),
            formula_sana(s@, o as int, f as int) == formula_sana(s@, a as int, f as int),
        decreases f - o,
    {
        match lee_ficha(s, s[o], o + 1, f) {
            Ficha::Rota => {
                return false;
            },
            Ficha::Corta => {
                return true;
            },
            Ficha::Larga(n) => {
                if n as u64 > (f - o - 1) as u64 {
                    return false;
                }
                o = o + 1 + n as usize;
            },
        }
    }
    true
}

// ---------------------------------------------------------------------------
// Textos compartidos
// ---------------------------------------------------------------------------

/// Donde se queda la lectura de un texto: en `o`, dentro de un trozo que acaba en `f`.
pub enum Sitio {
    Roto,
    Error,
    En { o: int, f: int },
}

enum Punto {
    Roto,
    Error,
    En { o: usize, f: usize },
}

impl View for Punto {
    type V = Sitio;

    closed spec fn view(&self) -> Sitio {
        match self {
            Punto::Roto => Sitio::Roto,
            Punto::Error => Sitio::Error,
            Punto::En { o, f } => Sitio::En { o: *o as int, f: *f as int },
        }
    }
}

/// Tras el trozo que acaba en `f` hay otro de continuacion, que no pasa de `q`.
pub open spec fn hay_otro(s: Seq<u8>, f: int, q: int) -> bool {
    f + 4 <= q && fin_otro(s, f) <= q
}

/// Donde acaba el trozo de continuacion que empieza en `f`.
pub open spec fn fin_otro(s: Seq<u8>, f: int) -> int {
    f + 4 + libro::n16(s, f + 2)
}

fn otro(s: &[u8], f: usize, q: usize) -> (r: Option<usize>)
    requires
        f <= q <= s@.len(),
    ensures
        match r {
            Some(f2) => hay_otro(s@, f as int, q as int) && f2 == fin_otro(s@, f as int),
            None => !hay_otro(s@, f as int, q as int),
        },
{
    if q - f < 4 {
        return None;
    }
    let n: usize = lee16(s, f + 2) as usize;
    if q - f - 4 < n {
        None
    } else {
        Some(f + 4 + n)
    }
}

/// Lee `n` letras de uno o dos bytes. Cada trozo de continuacion empieza por un byte que
/// dice de cuantos son las suyas.
pub open spec fn letras(s: Seq<u8>, o: int, f: int, q: int, n: int, dobles: bool) -> Sitio
    decreases q - f,
{
    let caben = if dobles {
        (f - o) / 2
    } else {
        f - o
    };
    if n <= caben {
        Sitio::En {
            o: o + (if dobles {
                2 * n
            } else {
                n
            }),
            f,
        }
    } else if f >= q {
        Sitio::Error
    } else if !hay_otro(s, f, q) || fin_otro(s, f) == f + 4 {
        Sitio::Roto
    } else {
        letras(s, f + 5, fin_otro(s, f), q, n - caben, s[f + 4] & 1 != 0)
    }
}

/// Salta `n` bytes.
pub open spec fn saltar(s: Seq<u8>, o: int, f: int, q: int, n: int) -> Sitio
    decreases q - f,
{
    if n <= f - o {
        Sitio::En { o: o + n, f }
    } else if f >= q {
        Sitio::Error
    } else if !hay_otro(s, f, q) {
        Sitio::Roto
    } else {
        saltar(s, f + 4, fin_otro(s, f), q, n - (f - o))
    }
}

/// Lee un texto compartido: sus letras, sus tramos de formato y lo que lleve detras.
pub open spec fn texto_compartido(s: Seq<u8>, o: int, f: int, q: int) -> Sitio {
    if f - o < 3 {
        Sitio::Error
    } else {
        let rico = s[o + 2] & 8 != 0;
        let ampliado = s[o + 2] & 4 != 0;
        let b = o + 3;
        let c = if rico {
            b + 2
        } else {
            b
        };
        let e = if ampliado {
            c + 4
        } else {
            c
        };
        if e > f {
            Sitio::Roto
        } else {
            let tramos = if rico {
                libro::n16(s, b)
            } else {
                0
            };
            let detras = if ampliado {
                libro::n32(s, c)
            } else {
                0
            };
            match letras(s, e, f, q, libro::n16(s, o), s[o + 2] & 1 != 0) {
                Sitio::En { o, f } => match saltar(s, o, f, q, 4 * tramos) {
                    Sitio::En { o, f } => if detras > i32::MAX {
                        Sitio::Error
                    } else {
                        saltar(s, o, f, q, detras)
                    },
                    x => x,
                },
                x => x,
            }
        }
    }
}

/// Lee los textos que hay de `o` a `f` y en los trozos de continuacion que llegan a `q`.
pub open spec fn textos_compartidos(s: Seq<u8>, o: int, f: int, q: int, pasos: nat) -> Marca
    decreases pasos,
{
    if o >= f && f >= q {
        Marca::Sigue
    } else if pasos == 0 || (o >= f && !hay_otro(s, f, q)) {
        Marca::Roto
    } else {
        let t = if o < f {
            texto_compartido(s, o, f, q)
        } else {
            texto_compartido(s, f + 4, fin_otro(s, f), q)
        };
        match t {
            Sitio::Roto => Marca::Roto,
            Sitio::Error => Marca::Error,
            Sitio::En { o, f } => textos_compartidos(s, o, f, q, (pasos - 1) as nat),
        }
    }
}

fn lee_letras(s: &[u8], a: usize, b: usize, q: usize, total: usize, anchas: bool) -> (r: Punto)
    requires
        a <= b <= q <= s@.len(),
    ensures
        r@ == letras(s@, a as int, b as int, q as int, total as int, anchas),
        r matches Punto::En { o, f } ==> a <= o <= f <= q,
{
    let mut o: usize = a;
    let mut f: usize = b;
    let mut n: usize = total;
    let mut dobles: bool = anchas;
    loop
        invariant
            a <= o <= f <= q <= s@.len(),
            letras(s@, o as int, f as int, q as int, n as int, dobles) == letras(
                s@,
                a as int,
                b as int,
                q as int,
                total as int,
                anchas,
            ),
        decreases q - f,
    {
        let caben: usize = if dobles {
            (f - o) / 2
        } else {
            f - o
        };
        if n <= caben {
            let m: usize = if dobles {
                2 * n
            } else {
                n
            };
            return Punto::En { o: o + m, f };
        }
        if f >= q {
            return Punto::Error;
        }
        match otro(s, f, q) {
            None => {
                return Punto::Roto;
            },
            Some(f2) => {
                if f2 == f + 4 {
                    return Punto::Roto;
                }
                n = n - caben;
                dobles = s[f + 4] & 1 != 0;
                o = f + 5;
                f = f2;
            },
        }
    }
}

fn lee_salto(s: &[u8], a: usize, b: usize, q: usize, total: u64) -> (r: Punto)
    requires
        a <= b <= q <= s@.len(),
    ensures
        r@ == saltar(s@, a as int, b as int, q as int, total as int),
        r matches Punto::En { o, f } ==> a <= o <= f <= q,
{
    let mut o: usize = a;
    let mut f: usize = b;
    let mut n: u64 = total;
    loop
        invariant
            a <= o <= f <= q <= s@.len(),
            saltar(s@, o as int, f as int, q as int, n as int) == saltar(
                s@,
                a as int,
                b as int,
                q as int,
                total as int,
            ),
        decreases q - f,
    {
        if n <= (f - o) as u64 {
            return Punto::En { o: o + n as usize, f };
        }
        if f >= q {
            return Punto::Error;
        }
        match otro(s, f, q) {
            None => {
                return Punto::Roto;
            },
            Some(f2) => {
                n = n - (f - o) as u64;
                o = f + 4;
                f = f2;
            },
        }
    }
}

fn lee_texto(s: &[u8], o: usize, f: usize, q: usize) -> (r: Punto)
    requires
        o <= f <= q <= s@.len(),
    ensures
        r@ == texto_compartido(s@, o as int, f as int, q as int),
        r matches Punto::En { o: o2, f: f2 } ==> o < o2 <= f2 <= q,
{
    if f - o < 3 {
        return Punto::Error;
    }
    let marcas: u8 = s[o + 2];
    let rico = marcas & 8 != 0;
    let ampliado = marcas & 4 != 0;
    let n: usize = lee16(s, o) as usize;
    let b: usize = o + 3;
    if rico && f - b < 2 {
        return Punto::Roto;
    }
    let c: usize = if rico {
        b + 2
    } else {
        b
    };
    if ampliado && f - c < 4 {
        return Punto::Roto;
    }
    let e: usize = if ampliado {
        c + 4
    } else {
        c
    };
    let tramos: u64 = if rico {
        lee16(s, b) as u64
    } else {
        0
    };
    let detras: u32 = if ampliado {
        lee32(s, c)
    } else {
        0
    };
    match lee_letras(s, e, f, q, n, marcas & 1 != 0) {
        Punto::En { o: o1, f: f1 } => match lee_salto(s, o1, f1, q, 4 * tramos) {
            Punto::En { o: o2, f: f2 } => if detras > 0x7fff_ffff {
                Punto::Error
            } else {
                lee_salto(s, o2, f2, q, detras as u64)
            },
            x => x,
        },
        x => x,
    }
}

fn lee_textos(s: &[u8], a: usize, b: usize, q: usize, veces: usize) -> (r: Marca)
    requires
        a <= b <= q <= s@.len(),
    ensures
        r == textos_compartidos(s@, a as int, b as int, q as int, veces as nat),
{
    let mut o: usize = a;
    let mut f: usize = b;
    let mut pasos: usize = veces;
    while o < f || f < q
        invariant
            o <= f <= q <= s@.len(),
            textos_compartidos(s@, o as int, f as int, q as int, pasos as nat)
                == textos_compartidos(s@, a as int, b as int, q as int, veces as nat),
        decreases pasos,
    {
        if pasos == 0 {
            return Marca::Roto;
        }
        if o >= f {
            match otro(s, f, q) {
                None => {
                    return Marca::Roto;
                },
                Some(f2) => {
                    o = f + 4;
                    f = f2;
                },
            }
        }
        match lee_texto(s, o, f, q) {
            Punto::Roto => {
                return Marca::Roto;
            },
            Punto::Error => {
                return Marca::Error;
            },
            Punto::En { o: o2, f: f2 } => {
                o = o2;
                f = f2;
                pasos = pasos - 1;
            },
        }
    }
    Marca::Sigue
}

// ---------------------------------------------------------------------------
// Registros
// ---------------------------------------------------------------------------

/// Celdas de una hoja entera, de 65536 filas y 256 columnas: para mas no hay sitio.
pub const CELDAS: u64 = 16_777_216;

/// Cuantas veces esta el byte `b` de `a` a `f`.
pub open spec fn veces(s: Seq<u8>, a: int, f: int, b: u8) -> int
    decreases f - a,
{
    if a >= f {
        0
    } else {
        veces(s, a, f - 1, b) + (if s[f - 1] == b {
            1int
        } else {
            0
        })
    }
}

fn cuenta(s: &[u8], a: usize, f: usize, b: u8) -> (r: usize)
    requires
        a <= f <= s@.len(),
    ensures
        r == veces(s@, a as int, f as int, b),
{
    let mut r: usize = 0;
    let mut i: usize = a;
    while i < f
        invariant
            a <= i <= f <= s@.len(),
            r == veces(s@, a as int, i as int, b),
            r <= i - a,
        decreases f - i,
    {
        if s[i] == b {
            r = r + 1;
        }
        i = i + 1;
    }
    r
}

/// Donde acaban los registros de continuacion que empiezan en `q`; nada si alguno no esta
/// entero.
pub open spec fn tras_continuos(s: Seq<u8>, q: int) -> Option<int>
    decreases s.len() - q,
{
    if s.len() - q > 4 && libro::n16(s, q) == 0x3C {
        if fin_otro(s, q) > s.len() {
            None
        } else {
            tras_continuos(s, fin_otro(s, q))
        }
    } else {
        Some(q)
    }
}

fn lee_continuos(s: &[u8], a: usize) -> (r: Option<usize>)
    requires
        a <= s@.len(),
    ensures
        match r {
            Some(q) => tras_continuos(s@, a as int) == Some(q as int) && a <= q <= s@.len(),
            None => tras_continuos(s@, a as int) is None,
        },
{
    let mut q: usize = a;
    while s.len() - q > 4 && lee16(s, q) == 0x3C
        invariant
            a <= q <= s@.len(),
            tras_continuos(s@, q as int) == tras_continuos(s@, a as int),
        decreases s@.len() - q,
    {
        match otro(s, q, s.len()) {
            None => {
                return None;
            },
            Some(f) => {
                q = f;
            },
        }
    }
    Some(q)
}

/// El nombre de un rango, de `n` bytes desde `a`: caben su texto y su formula, y la formula
/// lo que dice su primera ficha.
pub open spec fn nombre_sano(s: Seq<u8>, a: int, n: int) -> bool {
    &&& n >= 15
    &&& n >= 15 + s[a + 3]
    &&& libro::n16(s, a + 4) <= n
    &&& ({
        let f = libro::n16(s, a + 4);
        f > 0 ==> ({
            let ptg = s[a + n - f];
            if clase(ptg, 0x3a) {
                f >= 7
            } else if clase(ptg, 0x3b) {
                f >= 11
            } else if clase(ptg, 0x3c) || clase(ptg, 0x3d) {
                f >= 3
            } else {
                true
            }
        })
    })
}

fn lee_nombre(s: &[u8], a: usize, n: usize) -> (r: bool)
    requires
        a + n <= s@.len(),
    ensures
        r == nombre_sano(s@, a as int, n as int),
{
    assert(s@.len() == s.len());
    if n < 15 || n < 15 + s[a + 3] as usize {
        return false;
    }
    let f: usize = lee16(s, a + 4) as usize;
    if f > n {
        return false;
    }
    if f == 0 {
        return true;
    }
    let ptg: u8 = s[a + n - f];
    if es_clase(ptg, 0x3a) {
        f >= 7
    } else if es_clase(ptg, 0x3b) {
        f >= 11
    } else if es_clase(ptg, 0x3c) || es_clase(ptg, 0x3d) {
        f >= 3
    } else {
        true
    }
}

/// El formato de numero `i` es de los que el libro define; los demas se pasan por alto.
pub open spec fn formato_propio(i: int) -> bool {
    5 <= i <= 8 || 23 <= i <= 26 || 41 <= i <= 44 || 63 <= i <= 66 || 164 <= i <= 382
}

fn es_formato_propio(i: u32) -> (r: bool)
    ensures
        r == formato_propio(i as int),
{
    5 <= i && i <= 8 || 23 <= i && i <= 26 || 41 <= i && i <= 44 || 63 <= i && i <= 66 || 164 <= i
        && i <= 382
}

/// Un registro de los comunes a todas las hojas, del tipo `t` y de `n` bytes desde `a`; sus
/// continuaciones llegan a `q`.
pub open spec fn comun(s: Seq<u8>, t: int, a: int, n: int, q: int) -> Marca {
    if t == 0x2F {
        if n < 2 {
            Marca::Roto
        } else if libro::n16(s, a) != 0 {
            Marca::Error
        } else {
            Marca::Sigue
        }
    } else if t == 0x42 || t == 0x22 || t == 0x809 {
        if n < 2 {
            Marca::Roto
        } else {
            Marca::Sigue
        }
    } else if t == 0x41E {
        if n >= 2 && formato_propio(libro::n16(s, a)) && veces(s, a + 2, a + n, 0x5B) > 255 {
            Marca::Roto
        } else {
            Marca::Sigue
        }
    } else if t == 0xE0 {
        if n < 4 {
            Marca::Error
        } else {
            Marca::Sigue
        }
    } else if t == 0x85 {
        if n < 6 {
            Marca::Roto
        } else if s[a + 4] & 0x3F > 2 || !(s[a + 5] <= 2 || s[a + 5] == 6) || n < 8 {
            Marca::Error
        } else {
            Marca::Hoja(libro::n32(s, a) as u32)
        }
    } else if t == 0x18 {
        if nombre_sano(s, a, n) {
            Marca::Sigue
        } else {
            Marca::Roto
        }
    } else if t == 0x17 {
        if n < 2 || (libro::n16(s, a) > (n - 2) / 6 && (n - 2) % 6 != 0) {
            Marca::Roto
        } else {
            Marca::Sigue
        }
    } else if t == 0xFC {
        if n < 8 {
            Marca::Error
        } else {
            textos_compartidos(s, a + 8, a + n, q, (q - a) as nat)
        }
    } else if t == 0x0A {
        Marca::Fin
    } else {
        Marca::Sigue
    }
}

fn lee_comun(s: &[u8], t: u32, a: usize, n: usize, q: usize) -> (r: Marca)
    requires
        a + n <= q <= s@.len(),
    ensures
        r == comun(s@, t as int, a as int, n as int, q as int),
{
    if t == 0x2F {
        if n < 2 {
            Marca::Roto
        } else if lee16(s, a) != 0 {
            Marca::Error
        } else {
            Marca::Sigue
        }
    } else if t == 0x42 || t == 0x22 || t == 0x809 {
        if n < 2 {
            Marca::Roto
        } else {
            Marca::Sigue
        }
    } else if t == 0x41E {
        if n >= 2 && es_formato_propio(lee16(s, a)) && cuenta(s, a + 2, a + n, 0x5B) > 255 {
            Marca::Roto
        } else {
            Marca::Sigue
        }
    } else if t == 0xE0 {
        if n < 4 {
            Marca::Error
        } else {
            Marca::Sigue
        }
    } else if t == 0x85 {
        if n < 6 {
            return Marca::Roto;
        }
        let vista: u8 = s[a + 4] & 0x3F;
        let tipo: u8 = s[a + 5];
        if vista > 2 || !(tipo <= 2 || tipo == 6) || n < 8 {
            Marca::Error
        } else {
            Marca::Hoja(lee32(s, a))
        }
    } else if t == 0x18 {
        if lee_nombre(s, a, n) {
            Marca::Sigue
        } else {
            Marca::Roto
        }
    } else if t == 0x17 {
        if n < 2 || (lee16(s, a) as usize > (n - 2) / 6 && (n - 2) % 6 != 0) {
            Marca::Roto
        } else {
            Marca::Sigue
        }
    } else if t == 0xFC {
        if n < 8 {
            Marca::Error
        } else {
            lee_textos(s, a + 8, a + n, q, q - a)
        }
    } else if t == 0x0A {
        Marca::Fin
    } else {
        Marca::Sigue
    }
}

/// Una celda cuyo registro ocupa `minimo` bytes o mas: con menos es un error.
pub open spec fn celda(n: int, minimo: int) -> Marca {
    if n < minimo {
        Marca::Error
    } else {
        Marca::Sigue
    }
}

fn lee_celda(n: usize, minimo: usize) -> (r: Marca)
    ensures
        r == celda(n as int, minimo as int),
{
    if n < minimo {
        Marca::Error
    } else {
        Marca::Sigue
    }
}

/// Las filas van de `rf` a `rl` y las columnas de `cf` a `cl`, sin contar las ultimas, y hay
/// sitio para sus celdas. Una primera columna que no puede ser se toma por la primera de
/// todas.
pub open spec fn medidas(rf: int, rl: int, cf: int, cl: int) -> bool {
    let c = if cf > 0xFF || cl < cf {
        0
    } else {
        cf
    };
    rl < 1 || cl < 1 || (rf < rl && c < cl && (rl - rf) * (cl - c) <= CELDAS)
}

fn buenas_medidas(rf: u32, rl: u32, cf: u32, cl: u32) -> (r: bool)
    requires
        cl <= 0xffff,
    ensures
        r == medidas(rf as int, rl as int, cf as int, cl as int),
{
    let c: u32 = if cf > 0xFF || cl < cf {
        0
    } else {
        cf
    };
    if rl < 1 || cl < 1 {
        return true;
    }
    if rf >= rl || c >= cl {
        return false;
    }
    let filas: u64 = (rl - rf) as u64;
    let columnas: u64 = (cl - c) as u64;
    assert(filas * columnas <= 0xffff_ffff * 0xffff) by (nonlinear_arith)
        requires
            filas <= 0xffff_ffff,
            columnas <= 0xffff,
    ;
    filas * columnas <= CELDAS
}

/// Un registro de una hoja, del tipo `t` y de `n` bytes desde `a`.
pub open spec fn de_hoja(s: Seq<u8>, t: int, a: int, n: int) -> Marca {
    if t == 0x200 {
        if n == 10 {
            if medidas(
                libro::n16(s, a),
                libro::n16(s, a + 2),
                libro::n16(s, a + 4),
                libro::n16(s, a + 6),
            ) {
                Marca::Sigue
            } else {
                Marca::Roto
            }
        } else if n == 14 {
            if medidas(
                libro::n32(s, a),
                libro::n32(s, a + 4),
                libro::n16(s, a + 8),
                libro::n16(s, a + 10),
            ) {
                Marca::Sigue
            } else {
                Marca::Roto
            }
        } else {
            Marca::Error
        }
    } else if t == 0x203 {
        celda(n, 14)
    } else if t == 0x204 {
        celda(n, 6)
    } else if t == 0x205 {
        celda(n, 8)
    } else if t == 0x27E || t == 0xFD {
        celda(n, 10)
    } else if t == 0xBD {
        if n < 6 {
            Marca::Error
        } else if libro::n16(s, a + 2) > libro::n16(s, a + n - 2) || libro::n16(s, a + n - 2)
            - libro::n16(s, a + 2) == 0xffff {
            Marca::Roto
        } else if n != 12 + 6 * (libro::n16(s, a + n - 2) - libro::n16(s, a + 2)) {
            Marca::Error
        } else {
            Marca::Sigue
        }
    } else if t == 0xE5 {
        if n < 2 || n < 2 + 8 * libro::n16(s, a) {
            Marca::Roto
        } else {
            Marca::Sigue
        }
    } else if t == 0x06 {
        if n < 20 {
            Marca::Error
        } else if n < 22 || n < 22 + libro::n16(s, a + 20) || !formula_sana(
            s,
            a + 22,
            a + 22 + libro::n16(s, a + 20),
        ) {
            Marca::Roto
        } else {
            Marca::Sigue
        }
    } else if t == 0x0A {
        Marca::Fin
    } else {
        Marca::Sigue
    }
}

fn lee_de_hoja(s: &[u8], t: u32, a: usize, n: usize) -> (r: Marca)
    requires
        a + n <= s@.len(),
    ensures
        r == de_hoja(s@, t as int, a as int, n as int),
{
    assert(s@.len() == s.len());
    if t == 0x200 {
        if n != 10 && n != 14 {
            return Marca::Error;
        }
        let bien = if n == 10 {
            buenas_medidas(lee16(s, a), lee16(s, a + 2), lee16(s, a + 4), lee16(s, a + 6))
        } else {
            buenas_medidas(lee32(s, a), lee32(s, a + 4), lee16(s, a + 8), lee16(s, a + 10))
        };
        if bien {
            Marca::Sigue
        } else {
            Marca::Roto
        }
    } else if t == 0x203 {
        lee_celda(n, 14)
    } else if t == 0x204 {
        lee_celda(n, 6)
    } else if t == 0x205 {
        lee_celda(n, 8)
    } else if t == 0x27E || t == 0xFD {
        lee_celda(n, 10)
    } else if t == 0xBD {
        if n < 6 {
            return Marca::Error;
        }
        let primera: u32 = lee16(s, a + 2);
        let ultima: u32 = lee16(s, a + n - 2);
        if primera > ultima || ultima - primera == 0xffff {
            Marca::Roto
        } else if n != 12 + 6 * (ultima - primera) as usize {
            Marca::Error
        } else {
            Marca::Sigue
        }
    } else if t == 0xE5 {
        if n < 2 || n < 2 + 8 * lee16(s, a) as usize {
            Marca::Roto
        } else {
            Marca::Sigue
        }
    } else if t == 0x06 {
        if n < 20 {
            return Marca::Error;
        }
        if n < 22 {
            return Marca::Roto;
        }
        let largo: usize = lee16(s, a + 20) as usize;
        if n - 22 < largo || !lee_formula(s, a + 22, a + 22 + largo) {
            Marca::Roto
        } else {
            Marca::Sigue
        }
    } else if t == 0x0A {
        Marca::Fin
    } else {
        Marca::Sigue
    }
}

/// Las celdas entre dos filas y entre dos columnas, con estas.
#[derive(Debug, Clone, Copy, PartialEq, Eq)]
pub struct Caja {
    pub arriba: u32,
    pub abajo: u32,
    pub izquierda: u32,
    pub derecha: u32,
}

/// Las celdas que abarcan los registros de una hoja, y la fila y la columna de la ultima
/// formula, que es de donde es el texto que venga detras.
#[derive(Debug, Clone, Copy, PartialEq, Eq)]
pub struct Alcance {
    pub caja: Option<Caja>,
    pub fila: u32,
    pub columna: u32,
}

impl Caja {
    pub open spec fn bien(self) -> bool {
        self.arriba <= self.abajo <= 0xffff && self.izquierda <= self.derecha <= 0xffff
    }
}

impl Alcance {
    pub open spec fn bien(self) -> bool {
        &&& self.fila <= 0xffff
        &&& self.columna <= 0xffff
        &&& self.caja matches Some(c) ==> c.bien()
    }
}

/// El alcance de los registros de una hoja antes del primero.
pub open spec fn sin_registros() -> Alcance {
    Alcance { caja: None, fila: 0, columna: 0 }
}

pub open spec fn menor(x: u32, y: u32) -> u32 {
    if x <= y {
        x
    } else {
        y
    }
}

pub open spec fn mayor(x: u32, y: u32) -> u32 {
    if x >= y {
        x
    } else {
        y
    }
}

/// La menor caja con las celdas de `c` y, de la fila `f`, las columnas de `a` a `b`.
pub open spec fn abarcar(c: Option<Caja>, f: u32, a: u32, b: u32) -> Caja {
    match c {
        None => Caja { arriba: f, abajo: f, izquierda: a, derecha: b },
        Some(c) => Caja {
            arriba: menor(c.arriba, f),
            abajo: mayor(c.abajo, f),
            izquierda: menor(c.izquierda, a),
            derecha: mayor(c.derecha, b),
        },
    }
}

/// El alcance tras un registro de una hoja, del tipo `t` y de `n` bytes desde `a`.
pub open spec fn tras_registro(al: Alcance, s: Seq<u8>, t: int, a: int, n: int) -> Alcance {
    let f = libro::n16(s, a) as u32;
    let c = libro::n16(s, a + 2) as u32;
    if t == 0x203 || t == 0x204 || t == 0x205 || t == 0x27E || t == 0xFD {
        Alcance { caja: Some(abarcar(al.caja, f, c, c)), ..al }
    } else if t == 0xBD {
        Alcance {
            caja: Some(abarcar(al.caja, f, c, libro::n16(s, a + n - 2) as u32)),
            ..al
        }
    } else if t == 0x06 {
        Alcance { caja: Some(abarcar(al.caja, f, c, c)), fila: f, columna: c }
    } else if t == 0x207 {
        Alcance { caja: Some(abarcar(al.caja, al.fila, al.columna, al.columna)), ..al }
    } else {
        al
    }
}

/// Como acaba una hoja: hace falta sitio para todas las celdas que abarca.
pub open spec fn al_final(al: Alcance) -> Marca {
    match al.caja {
        None => Marca::Fin,
        Some(c) => if (c.abajo - c.arriba + 1) * (c.derecha - c.izquierda + 1) <= CELDAS {
            Marca::Fin
        } else {
            Marca::Roto
        },
    }
}

fn abarca(c: Option<Caja>, f: u32, a: u32, b: u32) -> (r: Caja)
    requires
        c matches Some(k) ==> k.bien(),
        f <= 0xffff,
        a <= b <= 0xffff,
    ensures
        r == abarcar(c, f, a, b),
        r.bien(),
{
    match c {
        None => Caja { arriba: f, abajo: f, izquierda: a, derecha: b },
        Some(c) => Caja {
            arriba: if c.arriba <= f {
                c.arriba
            } else {
                f
            },
            abajo: if c.abajo >= f {
                c.abajo
            } else {
                f
            },
            izquierda: if c.izquierda <= a {
                c.izquierda
            } else {
                a
            },
            derecha: if c.derecha >= b {
                c.derecha
            } else {
                b
            },
        },
    }
}

fn avanza(al: Alcance, s: &[u8], t: u32, a: usize, n: usize) -> (r: Alcance)
    requires
        a + n <= s@.len(),
        al.bien(),
        de_hoja(s@, t as int, a as int, n as int) == Marca::Sigue,
    ensures
        r == tras_registro(al, s@, t as int, a as int, n as int),
        r.bien(),
{
    assert(s@.len() == s.len());
    if t == 0x203 || t == 0x204 || t == 0x205 || t == 0x27E || t == 0xFD {
        let c: u32 = lee16(s, a + 2);
        Alcance { caja: Some(abarca(al.caja, lee16(s, a), c, c)), ..al }
    } else if t == 0xBD {
        let c: u32 = lee16(s, a + 2);
        Alcance { caja: Some(abarca(al.caja, lee16(s, a), c, lee16(s, a + n - 2))), ..al }
    } else if t == 0x06 {
        let f: u32 = lee16(s, a);
        let c: u32 = lee16(s, a + 2);
        Alcance { caja: Some(abarca(al.caja, f, c, c)), fila: f, columna: c }
    } else if t == 0x207 {
        Alcance { caja: Some(abarca(al.caja, al.fila, al.columna, al.columna)), ..al }
    } else {
        al
    }
}

fn acaba(al: Alcance) -> (r: Marca)
    requires
        al.bien(),
    ensures
        r == al_final(al),
{
    match al.caja {
        None => Marca::Fin,
        Some(c) => {
            let filas: u64 = (c.abajo - c.arriba) as u64 + 1;
            let columnas: u64 = (c.derecha - c.izquierda) as u64 + 1;
            assert(filas * columnas <= 0x10000 * 0x10000) by (nonlinear_arith)
                requires
                    filas <= 0x10000,
                    columnas <= 0x10000,
            ;
            if filas * columnas <= CELDAS {
                Marca::Fin
            } else {
                Marca::Roto
            }
        },
    }
}

// ---------------------------------------------------------------------------
// El libro
// ---------------------------------------------------------------------------

/// Los registros comunes desde `p`: donde empieza cada hoja, detras de `hojas`, y como
/// acaban.
pub open spec fn comunes(s: Seq<u8>, p: int, hojas: Seq<u32>, pasos: nat) -> (Marca, Seq<u32>)
    decreases pasos,
{
    if p >= s.len() {
        (Marca::Fin, hojas)
    } else if p + 4 > s.len() || fin_otro(s, p) > s.len() {
        (Marca::Error, hojas)
    } else {
        match tras_continuos(s, fin_otro(s, p)) {
            None => (Marca::Error, hojas),
            Some(q) => if pasos == 0 {
                (Marca::Roto, hojas)
            } else {
                match comun(s, libro::n16(s, p), p + 4, libro::n16(s, p + 2), q) {
                    Marca::Sigue => comunes(s, q, hojas, (pasos - 1) as nat),
                    Marca::Hoja(h) => comunes(s, q, hojas.push(h), (pasos - 1) as nat),
                    m => (m, hojas),
                }
            },
        }
    }
}

/// Los registros de una hoja desde `p`, tras otros que abarcan `al`: como acaban.
pub open spec fn hoja(s: Seq<u8>, p: int, al: Alcance, pasos: nat) -> Marca
    decreases pasos,
{
    if p >= s.len() {
        al_final(al)
    } else if p + 4 > s.len() || fin_otro(s, p) > s.len() {
        Marca::Error
    } else {
        match tras_continuos(s, fin_otro(s, p)) {
            None => Marca::Error,
            Some(q) => if pasos == 0 {
                Marca::Roto
            } else {
                match de_hoja(s, libro::n16(s, p), p + 4, libro::n16(s, p + 2)) {
                    Marca::Sigue => hoja(
                        s,
                        q,
                        tras_registro(al, s, libro::n16(s, p), p + 4, libro::n16(s, p + 2)),
                        (pasos - 1) as nat,
                    ),
                    Marca::Fin => al_final(al),
                    m => m,
                }
            },
        }
    }
}

/// Las hojas, desde la `k`, se pueden leer; tras una con un error no se lee mas.
pub open spec fn hojas_sanas(s: Seq<u8>, hojas: Seq<u32>, k: int) -> bool
    decreases hojas.len() - k,
{
    if k >= hojas.len() {
        true
    } else if hojas[k] > s.len() {
        false
    } else {
        match hoja(s, hojas[k] as int, sin_registros(), s.len()) {
            Marca::Roto => false,
            Marca::Error => true,
            _ => hojas_sanas(s, hojas, k + 1),
        }
    }
}

/// Los registros de un libro se pueden leer.
pub open spec fn registros_sanos(s: Seq<u8>) -> bool {
    let p = comunes(s, 0, seq![], s.len());
    match p.0 {
        Marca::Roto => false,
        Marca::Error => true,
        _ => hojas_sanas(s, p.1, 0),
    }
}

fn lee_comunes(s: &[u8]) -> (r: (Marca, Vec<u32>))
    ensures
        (r.0, r.1@) == comunes(s@, 0, seq![], s@.len()),
{
    let mut hojas: Vec<u32> = Vec::new();
    let mut p: usize = 0;
    let mut pasos: usize = s.len();
    assert(hojas@ =~= Seq::<u32>::empty());
    while p < s.len()
        invariant
            p <= s@.len(),
            comunes(s@, p as int, hojas@, pasos as nat) == comunes(s@, 0, seq![], s@.len()),
        decreases pasos,
    {
        let fin = match otro(s, p, s.len()) {
            None => {
                return (Marca::Error, hojas);
            },
            Some(f) => f,
        };
        let q = match lee_continuos(s, fin) {
            None => {
                return (Marca::Error, hojas);
            },
            Some(q) => q,
        };
        if pasos == 0 {
            return (Marca::Roto, hojas);
        }
        match lee_comun(s, lee16(s, p), p + 4, lee16(s, p + 2) as usize, q) {
            Marca::Sigue => {},
            Marca::Hoja(h) => {
                hojas.push(h);
            },
            m => {
                return (m, hojas);
            },
        }
        p = q;
        pasos = pasos - 1;
    }
    (Marca::Fin, hojas)
}

fn lee_hoja(s: &[u8], inicio: usize) -> (r: Marca)
    requires
        inicio <= s@.len(),
    ensures
        r == hoja(s@, inicio as int, sin_registros(), s@.len()),
{
    let mut p: usize = inicio;
    let mut al: Alcance = Alcance { caja: None, fila: 0, columna: 0 };
    let mut pasos: usize = s.len();
    while p < s.len()
        invariant
            p <= s@.len(),
            al.bien(),
            hoja(s@, p as int, al, pasos as nat) == hoja(
                s@,
                inicio as int,
                sin_registros(),
                s@.len(),
            ),
        decreases pasos,
    {
        let fin = match otro(s, p, s.len()) {
            None => {
                return Marca::Error;
            },
            Some(f) => f,
        };
        let q = match lee_continuos(s, fin) {
            None => {
                return Marca::Error;
            },
            Some(q) => q,
        };
        if pasos == 0 {
            return Marca::Roto;
        }
        let t: u32 = lee16(s, p);
        let n: usize = lee16(s, p + 2) as usize;
        match lee_de_hoja(s, t, p + 4, n) {
            Marca::Sigue => {
                al = avanza(al, s, t, p + 4, n);
            },
            Marca::Fin => {
                return acaba(al);
            },
            m => {
                return m;
            },
        }
        p = q;
        pasos = pasos - 1;
    }
    acaba(al)
}

fn lee_registros(s: &[u8]) -> (r: bool)
    ensures
        r == registros_sanos(s@),
{
    let (m, hojas) = lee_comunes(s);
    match m {
        Marca::Roto => {
            return false;
        },
        Marca::Error => {
            return true;
        },
        _ => {},
    }
    let mut k: usize = 0;
    while k < hojas.len()
        invariant
            0 <= k <= hojas@.len(),
            hojas_sanas(s@, hojas@, k as int) == registros_sanos(s@),
        decreases hojas@.len() - k,
    {
        if hojas[k] as u64 > s.len() as u64 {
            return false;
        }
        match lee_hoja(s, hojas[k] as usize) {
            Marca::Roto => {
                return false;
            },
            Marca::Error => {
                return true;
            },
            _ => {},
        }
        k = k + 1;
    }
    true
}

/// Como estan los bytes de un libro.
#[derive(Debug, Clone, Copy, PartialEq, Eq, Structural)]
pub enum Estado {
    /// Se pueden leer, o se ve al leerlos que no son un libro.
    Sano,
    /// No se pueden leer.
    Danado,
    /// Llevan macros, que no se miran.
    Macros,
}

pub open spec fn estado(d: Seq<u8>) -> Estado {
    match libro::flujo(d) {
        FlujoVista::Nada => Estado::Sano,
        FlujoVista::Roto => Estado::Danado,
        FlujoVista::Macros => Estado::Macros,
        FlujoVista::Bytes(s) => if registros_sanos(s) {
            Estado::Sano
        } else {
            Estado::Danado
        },
    }
}

pub fn estado_libro(d: &[u8]) -> (r: Estado)
    ensures
        r == estado(d@),
{
    match libro::lee_flujo(d) {
        Flujo::Nada => Estado::Sano,
        Flujo::Roto => Estado::Danado,
        Flujo::Macros => Estado::Macros,
        Flujo::Bytes(s) => if lee_registros(s.as_slice()) {
            Estado::Sano
        } else {
            Estado::Danado
        },
    }
}

// ---------------------------------------------------------------------------
// Leyes
// ---------------------------------------------------------------------------

/// Una ficha que se lee cabe en su formula.
pub proof fn ley_ficha_cabe(s: Seq<u8>, ptg: u8, o: int, f: int)
    requires
        0 <= o <= f <= s.len(),
    ensures
        ficha(s, ptg, o, f) matches Ficha::Larga(n) ==> n <= 0x2_0005 && o + n <= f,
{
}

/// Lo que ocupa cada ficha, cuando cabe: las operaciones nada, los numeros y las referencias lo
/// suyo, y un texto lo que dice.
pub proof fn ley_largo_de_ficha(s: Seq<u8>, ptg: u8, o: int, f: int)
    requires
        0 <= o,
        o + 300 <= f <= s.len(),
    ensures
        3 <= ptg <= 0x16 ==> ficha(s, ptg, o, f) == Ficha::Larga(0),
        ptg == 0x17 ==> ficha(s, ptg, o, f) == Ficha::Larga((s[o] + 2) as u32),
        ptg == 0x18 ==> ficha(s, ptg, o, f) == Ficha::Larga(5),
        ptg == 0x1d ==> ficha(s, ptg, o, f) == Ficha::Larga(1),
        ptg == 0x1e ==> ficha(s, ptg, o, f) == Ficha::Larga(2),
        ptg == 0x1f ==> ficha(s, ptg, o, f) == Ficha::Larga(8),
        ptg == 0x20 || ptg == 0x40 || ptg == 0x60 ==> ficha(s, ptg, o, f) == Ficha::Larga(7),
        ptg == 0x25 || ptg == 0x45 || ptg == 0x65 ==> ficha(s, ptg, o, f) == Ficha::Larga(8),
        ptg == 0x01 || ptg == 0x2a || ptg == 0x4a || ptg == 0x6a ==> ficha(s, ptg, o, f)
            == Ficha::Larga(4),
        ptg == 0x3b || ptg == 0x5b || ptg == 0x7b || ptg == 0x3d || ptg == 0x5d || ptg == 0x7d
            ==> ficha(s, ptg, o, f) == Ficha::Larga(10),
        ptg == 0x21 || ptg == 0x41 || ptg == 0x61 ==> (ficha(s, ptg, o, f) == Ficha::Larga(2)
            <==> libro::n16(s, o) < 485),
        ptg == 0x21 || ptg == 0x41 || ptg == 0x61 ==> (ficha(s, ptg, o, f) is Rota <==> libro::n16(
            s,
            o,
        ) == 485),
        ptg == 0x23 || ptg == 0x43 || ptg == 0x63 ==> (ficha(s, ptg, o, f) is Rota <==> libro::n32(
            s,
            o,
        ) == 0),
        ptg == 0x24 || ptg == 0x44 || ptg == 0x64 ==> (ficha(s, ptg, o, f) is Rota <==> libro::n16(
            s,
            o,
        ) == 0xffff),
        ptg == 0 || ptg == 2 || ptg == 0x1a || ptg == 0x1b ==> ficha(s, ptg, o, f) is Corta,
{
}

/// Una formula es sana si lo es su primera ficha y lo que la sigue; vacia lo es.
pub proof fn ley_formula(s: Seq<u8>, o: int, f: int)
    requires
        0 <= o,
        f <= s.len(),
    ensures
        o >= f ==> formula_sana(s, o, f),
        o < f && 3 <= s[o] <= 0x16 ==> (formula_sana(s, o, f) <==> formula_sana(s, o + 1, f)),
        o < f && s[o] == 0x1e ==> (formula_sana(s, o, f) <==> o + 3 <= f && formula_sana(s, o + 3, f)),
        o < f && s[o] == 0x1f ==> (formula_sana(s, o, f) <==> o + 9 <= f && formula_sana(s, o + 9, f)),
        o + 1 < f && s[o] == 0x17 ==> (formula_sana(s, o, f) <==> o + 3 + s[o + 1] <= f
            && formula_sana(s, o + 3 + s[o + 1], f)),
        o < f ==> (ficha(s, s[o], o + 1, f) is Rota ==> !formula_sana(s, o, f)),
        o < f ==> (ficha(s, s[o], o + 1, f) is Corta ==> formula_sana(s, o, f)),
{
}

/// Las apariciones de un byte se suman por tramos.
pub proof fn ley_veces(s: Seq<u8>, a: int, m: int, f: int, b: u8)
    requires
        a <= m <= f,
    ensures
        veces(s, a, f, b) == veces(s, a, m, b) + veces(s, m, f, b),
        veces(s, a, a, b) == 0,
        veces(s, a, a + 1, b) == (if s[a] == b {
            1int
        } else {
            0
        }),
        0 <= veces(s, a, f, b) <= f - a,
    decreases f - a,
{
    assert(veces(s, a, a, b) == 0);
    if m < f {
        ley_veces(s, a, m, f - 1, b);
    } else if a < f {
        ley_veces(s, a, a, f - 1, b);
    }
}

/// Un texto que cabe en su trozo avanza lo que miden sus letras, de uno o de dos bytes; lo que no
/// cabe sigue en el trozo siguiente, si lo hay.
pub proof fn ley_letras(s: Seq<u8>, o: int, f: int, q: int, n: int)
    requires
        0 <= o <= f <= q,
        0 <= n,
    ensures
        n <= f - o ==> letras(s, o, f, q, n, false) == (Sitio::En { o: o + n, f }),
        2 * n <= f - o ==> letras(s, o, f, q, n, true) == (Sitio::En { o: o + 2 * n, f }),
        n > f - o && f == q ==> letras(s, o, f, q, n, false) is Error,
        2 * n > f - o && f == q ==> letras(s, o, f, q, n, true) is Error,
        n <= f - o ==> saltar(s, o, f, q, n) == (Sitio::En { o: o + n, f }),
        n > f - o && f == q ==> saltar(s, o, f, q, n) is Error,
        n > f - o && f < q && !hay_otro(s, f, q) ==> saltar(s, o, f, q, n) is Roto,
        n > f - o && hay_otro(s, f, q) ==> saltar(s, o, f, q, n) == saltar(
            s,
            f + 4,
            f + 4 + libro::n16(s, f + 2),
            q,
            n - (f - o),
        ),
{
}

/// Una hoja que dice medir algo mide lo que dice, y no pasa de las celdas que se guardan.
pub proof fn ley_medidas(rf: int, rl: int, cf: int, cl: int)
    requires
        0 <= rf,
        0 <= cf <= cl,
        cf <= 0xFF,
    ensures
        rl < 1 || cl < 1 ==> medidas(rf, rl, cf, cl),
        rl >= 1 && cl >= 1 ==> (medidas(rf, rl, cf, cl) <==> rf < rl && cf < cl && (rl - rf) * (cl
            - cf) <= 0x100_0000),
{
}

/// La caja de unos registros abarca la que habia y la celda nueva, y no se pasa de ellas.
pub proof fn ley_caja(c: Caja, f: u32, a: u32, b: u32)
    requires
        a <= b,
        c.bien(),
    ensures
        ({
            let r = abarcar(Some(c), f, a, b);
            &&& r.arriba <= f <= r.abajo && r.izquierda <= a && b <= r.derecha
            &&& r.arriba <= c.arriba && c.abajo <= r.abajo
            &&& r.izquierda <= c.izquierda && c.derecha <= r.derecha
            &&& r.arriba == f || r.arriba == c.arriba
            &&& r.abajo == f || r.abajo == c.abajo
            &&& r.izquierda == a || r.izquierda == c.izquierda
            &&& r.derecha == b || r.derecha == c.derecha
        }),
        abarcar(None, f, a, b) == (Caja { arriba: f, abajo: f, izquierda: a, derecha: b }),
        al_final(Alcance { caja: Some(c), fila: f, columna: a }) is Fin <==> (c.abajo - c.arriba + 1)
            * (c.derecha - c.izquierda + 1) <= 0x100_0000,
        al_final(Alcance { caja: Some(c), fila: f, columna: a }) is Fin || al_final(
            Alcance { caja: Some(c), fila: f, columna: a },
        ) is Roto,
        al_final(Alcance { caja: None, fila: f, columna: a }) is Fin,
{
}

/// Los registros de celda piden un minimo de bytes y apuntan su celda; el texto de una formula, la
/// de la formula.
pub proof fn ley_registro_de_celda(al: Alcance, s: Seq<u8>, a: int, n: int)
    requires
        0 <= a,
        0 <= n,
        a + n <= s.len(),
    ensures
        n < 14 <==> de_hoja(s, 0x203, a, n) is Error,
        n < 6 <==> de_hoja(s, 0x204, a, n) is Error,
        n < 8 <==> de_hoja(s, 0x205, a, n) is Error,
        n < 10 <==> de_hoja(s, 0x27E, a, n) is Error,
        n < 10 <==> de_hoja(s, 0xFD, a, n) is Error,
        n < 20 <==> de_hoja(s, 0x06, a, n) is Error,
        n != 10 && n != 14 <==> de_hoja(s, 0x200, a, n) is Error,
        de_hoja(s, 0x0A, a, n) is Fin && comun(s, 0x0A, a, n, a + n) is Fin,
        n >= 4 ==> ({
            let f = libro::n16(s, a) as u32;
            let c = libro::n16(s, a + 2) as u32;
            let r = tras_registro(al, s, 0x203, a, n);
            let x = tras_registro(al, s, 0x06, a, n);
            let t = tras_registro(x, s, 0x207, a, n);
            &&& r == tras_registro(al, s, 0x204, a, n) && r == tras_registro(al, s, 0x205, a, n)
            &&& r == tras_registro(al, s, 0x27E, a, n) && r == tras_registro(al, s, 0xFD, a, n)
            &&& r.caja == Some(abarcar(al.caja, f, c, c)) && r.fila == al.fila && r.columna
                == al.columna
            &&& x.caja == r.caja && x.fila == f && x.columna == c
            &&& t.caja == Some(abarcar(x.caja, f, c, c)) && t.fila == f && t.columna == c
        }),
{
}

/// Un registro que no se conoce se salta.
pub proof fn ley_registro_ajeno(s: Seq<u8>, p: int, al: Alcance, hojas: Seq<u32>, pasos: nat, t: int)
    requires
        0 <= p,
        p + 4 <= s.len(),
        t == libro::n16(s, p),
        p + 4 + libro::n16(s, p + 2) <= s.len(),
        t == 0x1B6 || t == 0x23E || t == 0x55 || t == 0x12,
    ensures
        match tras_continuos(s, p + 4 + libro::n16(s, p + 2)) {
            Some(q) => hoja(s, p, al, pasos + 1) == hoja(s, q, al, pasos) && comunes(
                s,
                p,
                hojas,
                pasos + 1,
            ) == comunes(s, q, hojas, pasos),
            None => hoja(s, p, al, pasos + 1) is Error && comunes(s, p, hojas, pasos + 1).0 is Error,
        },
{
}

/// Los registros de continuacion se saltan todos.
pub proof fn ley_continuos(s: Seq<u8>, q: int)
    requires
        0 <= q,
    ensures
        tras_continuos(s, q) matches Some(r) ==> q <= r && !(r + 4 < s.len() && libro::n16(s, r)
            == 0x3C),
        q + 4 < s.len() && libro::n16(s, q) != 0x3C ==> tras_continuos(s, q) == Some(q),
        q + 4 >= s.len() ==> tras_continuos(s, q) == Some(q),
    decreases s.len() - q,
{
    if s.len() - q > 4 && libro::n16(s, q) == 0x3C && fin_otro(s, q) <= s.len() {
        assert(fin_otro(s, q) > q);
        ley_continuos(s, fin_otro(s, q));
    }
}

/// Un libro es sano si lo son sus hojas, una tras otra hasta la primera que da error.
pub proof fn ley_hojas(s: Seq<u8>, hojas: Seq<u32>, k: int)
    requires
        0 <= k,
    ensures
        k >= hojas.len() ==> hojas_sanas(s, hojas, k),
        k < hojas.len() && hojas[k] > s.len() ==> !hojas_sanas(s, hojas, k),
        k < hojas.len() && hojas[k] <= s.len() ==> ({
            let m = hoja(s, hojas[k] as int, sin_registros(), s.len());
            &&& m is Roto ==> !hojas_sanas(s, hojas, k)
            &&& m is Error ==> hojas_sanas(s, hojas, k)
            &&& m is Fin ==> (hojas_sanas(s, hojas, k) <==> hojas_sanas(s, hojas, k + 1))
        }),
{
}

/// El estado de un libro: lo que no es un contenedor se ve al leerlo; uno roto o con registros
/// rotos esta danado, y de uno con macros no se dice mas.
pub proof fn ley_estado(d: Seq<u8>)
    ensures
        estado(d) is Macros <==> libro::flujo(d) is Macros,
        libro::flujo(d) is Nada ==> estado(d) is Sano,
        libro::flujo(d) is Roto ==> estado(d) is Danado,
        libro::flujo(d) matches FlujoVista::Bytes(s) ==> (estado(d) is Sano <==> registros_sanos(s))
            && (estado(d) is Danado <==> !registros_sanos(s)),
{
}

/// Los registros comunes: el cifrado es un error, los que son demasiado cortos no se pueden leer, y
/// el de una hoja dice donde empieza.
pub proof fn ley_registro_comun(s: Seq<u8>, a: int, n: int, q: int)
    requires
        0 <= a,
        0 <= n,
        a + n <= q <= s.len(),
    ensures
        n < 2 ==> comun(s, 0x2F, a, n, q) is Roto && comun(s, 0x42, a, n, q) is Roto && comun(
            s,
            0x22,
            a,
            n,
            q,
        ) is Roto && comun(s, 0x809, a, n, q) is Roto,
        n >= 2 ==> (comun(s, 0x2F, a, n, q) is Error <==> libro::n16(s, a) != 0),
        n >= 2 ==> comun(s, 0x42, a, n, q) is Sigue && comun(s, 0x22, a, n, q) is Sigue && comun(
            s,
            0x809,
            a,
            n,
            q,
        ) is Sigue,
        comun(s, 0xE0, a, n, q) is Error <==> n < 4,
        n < 6 ==> comun(s, 0x85, a, n, q) is Roto,
        6 <= n < 8 ==> comun(s, 0x85, a, n, q) is Error,
        n >= 8 && s[a + 4] == 0 && s[a + 5] == 0 ==> comun(s, 0x85, a, n, q) == Marca::Hoja(
            libro::n32(s, a) as u32,
        ),
        n >= 6 && s[a + 5] > 6 ==> comun(s, 0x85, a, n, q) is Error,
        n < 8 ==> comun(s, 0xFC, a, n, q) is Error,
        n < 15 ==> comun(s, 0x18, a, n, q) is Roto,
        n >= 15 && n >= 15 + s[a + 3] && libro::n16(s, a + 4) == 0 ==> comun(s, 0x18, a, n, q) is Sigue,
        n >= 15 && n < 15 + s[a + 3] ==> comun(s, 0x18, a, n, q) is Roto,
        n >= 15 && libro::n16(s, a + 4) > n ==> comun(s, 0x18, a, n, q) is Roto,
{
    assert(0u8 & 0x3F == 0) by (bit_vector);
}

/// Un texto sin adornos ocupa su cabecera y sus letras, de uno o de dos bytes; sin cabecera es un
/// error.
pub proof fn ley_texto_compartido(s: Seq<u8>, o: int, f: int, q: int)
    requires
        0 <= o <= f <= q <= s.len(),
    ensures
        f - o < 3 ==> texto_compartido(s, o, f, q) is Error,
        f - o >= 3 && s[o + 2] == 0 && o + 3 + libro::n16(s, o) <= f ==> texto_compartido(s, o, f, q)
            == (Sitio::En { o: o + 3 + libro::n16(s, o), f }),
        f - o >= 3 && s[o + 2] == 1 && o + 3 + 2 * libro::n16(s, o) <= f ==> texto_compartido(
            s,
            o,
            f,
            q,
        ) == (Sitio::En { o: o + 3 + 2 * libro::n16(s, o), f }),
        f - o >= 3 && s[o + 2] == 0 && f == q && o + 3 + libro::n16(s, o) > f ==> texto_compartido(
            s,
            o,
            f,
            q,
        ) is Error,
{
    assert(0u8 & 8 == 0 && 0u8 & 4 == 0 && 0u8 & 1 == 0) by (bit_vector);
    assert(1u8 & 8 == 0 && 1u8 & 4 == 0 && 1u8 & 1 == 1) by (bit_vector);
}

/// Los textos de un libro se leen uno tras otro hasta el final.
pub proof fn ley_textos_compartidos(s: Seq<u8>, o: int, f: int, q: int, pasos: nat)
    requires
        0 <= o <= f <= q <= s.len(),
    ensures
        o == f && f == q ==> textos_compartidos(s, o, f, q, pasos) is Sigue,
        o < f ==> match texto_compartido(s, o, f, q) {
            Sitio::Roto => textos_compartidos(s, o, f, q, pasos + 1) is Roto,
            Sitio::Error => textos_compartidos(s, o, f, q, pasos + 1) is Error,
            Sitio::En { o: o2, f: f2 } => textos_compartidos(s, o, f, q, pasos + 1)
                == textos_compartidos(s, o2, f2, q, pasos),
        },
{
}

/// Los formatos propios de un libro son los de estos numeros.
pub proof fn ley_formato_propio(i: int)
    ensures
        formato_propio(i) <==> (5 <= i && i <= 8) || (23 <= i && i <= 26) || (41 <= i && i <= 44) || (
        63 <= i && i <= 66) || (164 <= i && i <= 382),
{
}

} // verus!
