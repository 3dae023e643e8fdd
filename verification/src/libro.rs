//! Que libros `.xls` estan enteros: su contenedor de sectores y sus registros se pueden
//! recorrer sin salirse de los bytes que hay ni dar vueltas.

use crate::texto;
use vstd::prelude::*;

verus! {

// ---------------------------------------------------------------------------
// Numeros
// ---------------------------------------------------------------------------

/// El numero de dos bytes que hay en `i`, el menor primero.
pub open spec fn n16(s: Seq<u8>, i: int) -> int {
    s[i] + 256 * s[i + 1]
}

/// El numero de cuatro bytes que hay en `i`, el menor primero.
pub open spec fn n32(s: Seq<u8>, i: int) -> int {
    n16(s, i) + 65536 * n16(s, i + 2)
}

/// Los numeros de cuatro bytes que hay entre `a` y `b`.
pub open spec fn numeros(s: Seq<u8>, a: int, b: int) -> Seq<u32> {
    Seq::new(((b - a) / 4) as nat, |i: int| n32(s, a + 4 * i) as u32)
}

pub(crate) fn lee16(s: &[u8], i: usize) -> (r: u32)
    requires
        i + 2 <= s@.len(),
    ensures
        r == n16(s@, i as int),
        r <= 0xffff,
{
    s[i] as u32 + 256 * (s[i + 1] as u32)
}

pub(crate) fn lee32(s: &[u8], i: usize) -> (r: u32)
    requires
        i + 4 <= s@.len(),
    ensures
        r == n32(s@, i as int),
{
    assert(s@.len() == s.len());
    lee16(s, i) + 65536 * lee16(s, i + 2)
}

fn lee_numeros(s: &[u8], a: usize, b: usize) -> (r: Vec<u32>)
    requires
        a <= b <= s@.len(),
    ensures
        r@ == numeros(s@, a as int, b as int),
{
    let mut r: Vec<u32> = Vec::new();
    let n: usize = (b - a) / 4;
    let mut i: usize = 0;
    while i < n
        invariant
            a <= b <= s@.len(),
            i <= n == (b - a) / 4,
            r@.len() == i,
            forall|k: int| 0 <= k < i ==> r@[k] == n32(s@, a + 4 * k) as u32,
        decreases n - i,
    {
        r.push(lee32(s, a + 4 * i));
        i = i + 1;
    }
    assert(r@ =~= numeros(s@, a as int, b as int));
    r
}

// ---------------------------------------------------------------------------
// El contenedor
// ---------------------------------------------------------------------------

/// Sectores con numero propio; los demas numeros son marcas.
pub const RESERVADO: u32 = 0xFFFF_FFFA;

/// Desde este numero una entrada de la tabla de tablas no nombra un sector.
pub const SIN_TABLA: u32 = 0xFFFF_FFFC;

/// El final de una cadena de sectores.
pub const FIN_CADENA: u32 = 0xFFFF_FFFE;

/// Bytes que se pueden reservar ademas de los que ocupa el contenedor.
pub const HOLGURA: u64 = 0x4000_0000;

/// Bytes de `n` sectores, que son de 4096 bytes o de 512.
pub open spec fn octetos(n: int, grande: bool) -> int {
    if grande {
        4096 * n
    } else {
        512 * n
    }
}

fn en_octetos(n: u64, grande: bool) -> (r: u64)
    requires
        n <= 0x1_0000_0010,
    ensures
        r == octetos(n as int, grande),
        r <= 0x1000_0001_0000,
{
    if grande {
        4096 * n
    } else {
        512 * n
    }
}

pub open spec fn grande(d: Seq<u8>) -> bool {
    n16(d, 30) != 9
}

/// La cabecera es la de un contenedor: la firma, los tamanos de sector y que este entera.
pub open spec fn con_cabecera(d: Seq<u8>) -> bool {
    &&& d.len() >= 512
    &&& n32(d, 0) == 0xE011_CFD0 && n32(d, 4) == 0xE11A_B1A1
    &&& n16(d, 30) == 9 || (n16(d, 30) == 12 && d.len() >= 4096)
    &&& n16(d, 32) == 6
}

fn tiene_cabecera(d: &[u8]) -> (r: bool)
    ensures
        r == con_cabecera(d@),
{
    d.len() >= 512 && lee32(d, 0) == 0xE011_CFD0 && lee32(d, 4) == 0xE11A_B1A1 && (lee16(d, 30)
        == 9 || (lee16(d, 30) == 12 && d.len() >= 4096)) && lee16(d, 32) == 6
}

/// Hay sitio en memoria para los `n` bytes que el contenedor dice ocupar.
pub open spec fn reservable(d: Seq<u8>, n: int) -> bool {
    n <= isize::MAX && n <= d.len() + HOLGURA
}

fn se_reserva(d: &[u8], n: u64) -> (r: bool)
    ensures
        r == reservable(d@, n as int),
{
    let total: u64 = d.len() as u64;
    n <= isize::MAX as u64 && (n <= total || n - total <= HOLGURA)
}

/// Hay sitio para el directorio, la tabla de sectores y la de tablas que dice la cabecera.
pub open spec fn medidas_sanas(d: Seq<u8>) -> bool {
    &&& reservable(d, octetos(n32(d, 40), grande(d)))
    &&& reservable(d, 4 * n32(d, 44))
    &&& reservable(d, 4 * n32(d, 62))
}

/// El sector `id` esta entero. La cabecera ocupa el sitio de un sector.
pub open spec fn cabe(d: Seq<u8>, id: int) -> bool {
    octetos(id + 2, grande(d)) <= d.len()
}

/// El byte que hay en `p`; tras el ultimo, cero.
pub open spec fn byte_en(d: Seq<u8>, p: int) -> u8 {
    if p < d.len() {
        d[p]
    } else {
        0
    }
}

/// Los bytes del sector `id`, con ceros donde ya no los hay.
pub open spec fn relleno(d: Seq<u8>, id: int) -> Seq<u8> {
    Seq::new(
        octetos(1, grande(d)) as nat,
        |i: int| byte_en(d, octetos(id + 1, grande(d)) + i),
    )
}

/// Lo que se lee en el sector `id` cuando ya se han pedido los `h` primeros. Del que no esta
/// entero se lee la primera vez lo que hay y despues con ceros detras. Tras los que hay se
/// pueden pedir otros, de uno en uno. Nada si `id` esta mas alla.
pub open spec fn sector(d: Seq<u8>, id: int, h: int) -> Option<Seq<u8>> {
    let a = octetos(id + 1, grande(d));
    if id < h || cabe(d, id) {
        Some(relleno(d, id))
    } else if a <= d.len() {
        Some(d.subrange(a, d.len() as int))
    } else if id == h {
        Some(seq![])
    } else {
        None
    }
}

/// Los sectores pedidos tras pedir tambien el `id`.
pub open spec fn pedidos(h: int, id: int) -> int {
    if id < h {
        h
    } else {
        id + 1
    }
}

/// La tabla de tablas: lo que hay en `acc` y lo que anaden los sectores encadenados desde
/// `id`, y los sectores pedidos. El siguiente es el ultimo numero de los que se llevan. Nada
/// si un sector no se puede leer, si no quedan numeros o si se vuelve a uno ya leido, que es
/// lo que pasa si tras uno que no estaba entero se leen mas de `pasos` enteros.
pub open spec fn tablas(d: Seq<u8>, id: int, h: int, acc: Seq<u32>, pasos: nat) -> Option<
    (Seq<u32>, int),
>
    decreases
            (if h < RESERVADO {
                RESERVADO - h
            } else {
                0
            }),
            pasos,
{
    if id >= RESERVADO {
        Some((acc, h))
    } else {
        match sector(d, id, h) {
            None => None,
            Some(s) => {
                let todo = acc + numeros(s, 0, s.len() as int);
                if s.len() % 4 != 0 || todo.len() == 0 {
                    None
                } else if !(id < h || cabe(d, id)) {
                    tablas(d, todo.last() as int, id + 1, todo.drop_last(), (id + 1) as nat)
                } else if pasos == 0 {
                    None
                } else {
                    tablas(
                        d,
                        todo.last() as int,
                        pedidos(h, id),
                        todo.drop_last(),
                        (pasos - 1) as nat,
                    )
                }
            },
        }
    }
}

/// La tabla de sectores: `acc` y los numeros de los sectores que nombra `ids` desde el
/// `k`, y los sectores pedidos. Nada si alguno no se puede leer.
pub open spec fn tabla_sectores(
    d: Seq<u8>,
    ids: Seq<u32>,
    k: int,
    h: int,
    acc: Seq<u32>,
) -> Option<(Seq<u32>, int)>
    decreases ids.len() - k,
{
    if k >= ids.len() {
        Some((acc, h))
    } else if ids[k] >= SIN_TABLA {
        tabla_sectores(d, ids, k + 1, h, acc)
    } else {
        match sector(d, ids[k] as int, h) {
            None => None,
            Some(s) => if s.len() % 4 != 0 {
                None
            } else {
                tabla_sectores(
                    d,
                    ids,
                    k + 1,
                    pedidos(h, ids[k] as int),
                    acc + numeros(s, 0, s.len() as int),
                )
            },
        }
    }
}

/// Los bytes de la cadena de sectores que empieza en `id`, detras de `acc`, y los sectores
/// pedidos. Nada si la cadena se sale del contenedor o de la tabla, o si no acaba en `pasos`
/// sectores.
pub open spec fn cadena(
    d: Seq<u8>,
    fat: Seq<u32>,
    id: int,
    h: int,
    acc: Seq<u8>,
    pasos: nat,
) -> Option<(Seq<u8>, int)>
    decreases pasos,
{
    if id == FIN_CADENA {
        Some((acc, h))
    } else if pasos == 0 || id >= fat.len() {
        None
    } else {
        match sector(d, id, h) {
            None => None,
            Some(s) => cadena(
                d,
                fat,
                fat[id] as int,
                pedidos(h, id),
                acc + s,
                (pasos - 1) as nat,
            ),
        }
    }
}

/// Hasta donde se llega al leer `n` bytes mas desde `p`.
pub open spec fn tras_leer(d: Seq<u8>, p: int, n: int) -> int {
    if n <= 0 {
        p
    } else if n <= d.len() - p {
        p + n
    } else {
        d.len() as int
    }
}

/// Los bytes de una cadena de sectores de 64 bytes dentro de `m`. Lo que le falte a `m` se
/// lee del contenedor, desde `p`, y donde este se acaba el sector se queda corto.
pub open spec fn cadena_menor(
    d: Seq<u8>,
    p: int,
    m: Seq<u8>,
    fat: Seq<u32>,
    id: int,
    acc: Seq<u8>,
    pasos: nat,
) -> Option<Seq<u8>>
    decreases pasos,
{
    if id == FIN_CADENA {
        Some(acc)
    } else if pasos == 0 || id >= fat.len() {
        None
    } else {
        let a = 64 * id;
        let b = 64 * id + 64;
        let p2 = tras_leer(d, p, b - m.len());
        let m2 = m + d.subrange(p, p2);
        let sig = fat[id] as int;
        let resto = (pasos - 1) as nat;
        if b <= m2.len() {
            cadena_menor(d, p2, m2, fat, sig, acc + m2.subrange(a, b), resto)
        } else if a <= m2.len() {
            cadena_menor(
                d,
                p2,
                m2 + Seq::new((b - m2.len()) as nat, |i: int| 0u8),
                fat,
                sig,
                acc + m2.subrange(a, m2.len() as int),
                resto,
            )
        } else {
            None
        }
    }
}

/// Los `n` primeros bytes; todos si `n` es cero o no hay tantos.
pub open spec fn recorte(s: Seq<u8>, n: int) -> Seq<u8> {
    if 0 < n < s.len() {
        s.take(n)
    } else {
        s
    }
}

/// Entradas de un directorio, que ocupan 128 bytes cada una.
pub open spec fn cuantas(dirs: Seq<u8>) -> int {
    (dirs.len() + 127) as int / 128
}

/// De la entrada `i` estan los bytes que se miran. Con sectores de 512 bytes los cuatro
/// ultimos no cuentan.
pub open spec fn entera(dirs: Seq<u8>, i: int, g: bool) -> bool {
    0 <= i && 128 * i + (if g {
        128int
    } else {
        124
    }) <= dirs.len()
}

/// Donde empieza el flujo de la entrada `i` del directorio.
pub open spec fn inicio_de(dirs: Seq<u8>, i: int) -> int {
    n32(dirs, 128 * i + 116)
}

/// Bytes del flujo de la entrada `i` del directorio.
pub open spec fn largo_de(dirs: Seq<u8>, i: int, g: bool) -> int {
    if g {
        n32(dirs, 128 * i + 120) + 4294967296 * n32(dirs, 128 * i + 124)
    } else {
        n32(dirs, 128 * i + 120)
    }
}

/// La letra `k` del nombre de la entrada `i`, si es ASCII. Los nombres van en caracteres de
/// dos bytes, el menor primero, salvo que empiecen por una marca que diga otra cosa.
pub open spec fn letra(dirs: Seq<u8>, i: int, k: int) -> int {
    let p = 128 * i;
    let marca = n16(dirs, p);
    if marca == 0xFEFF {
        n16(dirs, p + 2 + 2 * k)
    } else if marca == 0xFFFE {
        256 * dirs[p + 2 + 2 * k] + dirs[p + 3 + 2 * k]
    } else if marca == 0xBBEF && dirs[p + 2] == 0xBF {
        dirs[p + 3 + k] as int
    } else {
        n16(dirs, p + 2 * k)
    }
}

/// El nombre de la entrada `i` es `nombre`, que es ASCII.
pub open spec fn se_llama(dirs: Seq<u8>, i: int, nombre: Seq<char>) -> bool {
    &&& forall|k: int|
        0 <= k < nombre.len() ==> letra(dirs, i, k) == (#[trigger] nombre[k]) as u32
    &&& letra(dirs, i, nombre.len() as int) == 0
}

/// La entrada `i` esta entera y el tamano de su flujo es el de algo que cabe en memoria.
pub open spec fn entrada_sana(dirs: Seq<u8>, i: int, g: bool) -> bool {
    entera(dirs, i, g) && largo_de(dirs, i, g) <= usize::MAX
}

pub open spec fn entradas_sanas(dirs: Seq<u8>, g: bool) -> bool {
    forall|i: int| 0 <= i < cuantas(dirs) ==> #[trigger] entrada_sana(dirs, i, g)
}

/// La primera entrada, desde la `i`, que se llama `nombre`.
pub open spec fn entrada(dirs: Seq<u8>, nombre: Seq<char>, i: int) -> Option<int>
    decreases cuantas(dirs) - i,
{
    if i >= cuantas(dirs) {
        None
    } else if se_llama(dirs, i, nombre) {
        Some(i)
    } else {
        entrada(dirs, nombre, i + 1)
    }
}

/// Lo que hay en un contenedor.
#[verifier::ext_equal]
pub enum FlujoVista {
    /// No es un contenedor con un libro.
    Nada,
    /// Sus sectores no se pueden recorrer.
    Roto,
    /// Lleva macros.
    Macros,
    /// El flujo del libro.
    Bytes(Seq<u8>),
}

pub enum Flujo {
    Nada,
    Roto,
    Macros,
    Bytes(Vec<u8>),
}

impl View for Flujo {
    type V = FlujoVista;

    open spec fn view(&self) -> FlujoVista {
        match self {
            Flujo::Nada => FlujoVista::Nada,
            Flujo::Roto => FlujoVista::Roto,
            Flujo::Macros => FlujoVista::Macros,
            Flujo::Bytes(v) => FlujoVista::Bytes(v@),
        }
    }
}

/// El contenedor ya recorrido: su tabla de sectores, su directorio, los sectores pequenos y
/// la tabla de estos, y los sectores pedidos.
#[verifier::ext_equal]
pub struct Mapa {
    pub fat: Seq<u32>,
    pub dirs: Seq<u8>,
    pub menores: Seq<u8>,
    pub fat_menor: Seq<u32>,
    pub h: int,
}

/// Donde se queda la lectura del contenedor cuando se han pedido los `h` primeros sectores.
pub open spec fn leido(d: Seq<u8>, h: int) -> int {
    if octetos(h + 1, grande(d)) <= d.len() {
        octetos(h + 1, grande(d))
    } else {
        d.len() as int
    }
}

/// El flujo de la entrada `i`. Los de menos de 4096 bytes van en sectores pequenos.
pub open spec fn flujo_de(d: Seq<u8>, m: Mapa, i: int) -> FlujoVista {
    let largo = largo_de(m.dirs, i, grande(d));
    let inicio = inicio_de(m.dirs, i);
    if largo < 4096 {
        match cadena_menor(
            d,
            leido(d, m.h),
            m.menores,
            m.fat_menor,
            inicio,
            seq![],
            m.fat_menor.len(),
        ) {
            None => FlujoVista::Roto,
            Some(s) => FlujoVista::Bytes(recorte(s, largo)),
        }
    } else if !reservable(d, largo) {
        FlujoVista::Roto
    } else {
        match cadena(d, m.fat, inicio, m.h, seq![], m.fat.len()) {
            None => FlujoVista::Roto,
            Some(p) => FlujoVista::Bytes(recorte(p.0, largo)),
        }
    }
}

/// El flujo del libro: `Workbook` o, en los mas antiguos, `Book`.
pub open spec fn flujo_libro(d: Seq<u8>, m: Mapa) -> FlujoVista {
    if entrada(m.dirs, "_VBA_PROJECT_CUR"@, 0) is Some {
        FlujoVista::Macros
    } else {
        match entrada(m.dirs, "Workbook"@, 0) {
            Some(i) => flujo_de(d, m, i),
            None => match entrada(m.dirs, "Book"@, 0) {
                Some(i) => flujo_de(d, m, i),
                None => FlujoVista::Nada,
            },
        }
    }
}

/// Lo que hay en un contenedor del que se conocen la tabla de sectores y el directorio.
pub open spec fn con_directorio(d: Seq<u8>, fat: Seq<u32>, dirs: Seq<u8>, h: int) -> FlujoVista {
    let g = grande(d);
    if !entradas_sanas(dirs, g) {
        FlujoVista::Roto
    } else if dirs.len() == 0 || (n16(d, 26) != 3 && inicio_de(dirs, 0) == FIN_CADENA) {
        FlujoVista::Nada
    } else if n32(d, 64) == 0 {
        flujo_libro(d, Mapa { fat, dirs, menores: seq![], fat_menor: seq![], h })
    } else if !reservable(d, largo_de(dirs, 0, g)) || !reservable(d, octetos(n32(d, 64), g)) {
        FlujoVista::Roto
    } else {
        match cadena(d, fat, inicio_de(dirs, 0), h, seq![], fat.len()) {
            None => FlujoVista::Roto,
            Some(p) => match cadena(d, fat, n32(d, 60), p.1, seq![], fat.len()) {
                None => FlujoVista::Roto,
                Some(q) => {
                    let t = recorte(q.0, octetos(n32(d, 64), g));
                    if t.len() % 4 != 0 {
                        FlujoVista::Roto
                    } else {
                        flujo_libro(
                            d,
                            Mapa {
                                fat,
                                dirs,
                                menores: recorte(p.0, largo_de(dirs, 0, g)),
                                fat_menor: numeros(t, 0, t.len() as int),
                                h: q.1,
                            },
                        )
                    }
                },
            },
        }
    }
}

/// La tabla de tablas de un contenedor, desde los numeros que hay en su cabecera.
pub open spec fn primeras_tablas(d: Seq<u8>) -> Option<(Seq<u32>, int)> {
    tablas(d, n32(d, 68), 0, numeros(d, 76, 512), d.len() / 512)
}

/// Lo que hay en un contenedor.
pub open spec fn flujo(d: Seq<u8>) -> FlujoVista {
    if !con_cabecera(d) {
        FlujoVista::Nada
    } else if !medidas_sanas(d) {
        FlujoVista::Roto
    } else {
        match primeras_tablas(d) {
            None => FlujoVista::Roto,
            Some(t) => match tabla_sectores(d, t.0, 0, t.1, seq![]) {
                None => FlujoVista::Roto,
                Some(f) => match cadena(d, f.0, n32(d, 48), f.1, seq![], f.0.len()) {
                    None => FlujoVista::Roto,
                    Some(p) => con_directorio(
                        d,
                        f.0,
                        recorte(p.0, octetos(n32(d, 40), grande(d))),
                        p.1,
                    ),
                },
            },
        }
    }
}

fn copiar(r: &mut Vec<u8>, s: &[u8], a: usize, b: usize)
    requires
        a <= b <= s@.len(),
    ensures
        final(r)@ == old(r)@ + s@.subrange(a as int, b as int),
{
    let ghost antes = r@;
    let mut i: usize = a;
    while i < b
        invariant
            a <= i <= b <= s@.len(),
            r@ == antes + s@.subrange(a as int, i as int),
        decreases b - i,
    {
        r.push(s[i]);
        i = i + 1;
        assert(r@ =~= antes + s@.subrange(a as int, i as int));
    }
}

fn anadir(r: &mut Vec<u32>, ns: &Vec<u32>, n: usize)
    requires
        n <= ns@.len(),
    ensures
        final(r)@ == old(r)@ + ns@.take(n as int),
{
    let ghost antes = r@;
    let mut i: usize = 0;
    assert(r@ =~= antes + ns@.take(0));
    while i < n
        invariant
            0 <= i <= n <= ns@.len(),
            r@ == antes + ns@.take(i as int),
        decreases n - i,
    {
        r.push(ns[i]);
        i = i + 1;
        assert(r@ =~= antes + ns@.take(i as int));
    }
}

fn recortado(s: Vec<u8>, n: u64) -> (r: Vec<u8>)
    ensures
        r@ == recorte(s@, n as int),
{
    if n == 0 || n >= s.len() as u64 {
        return s;
    }
    let mut r: Vec<u8> = Vec::new();
    copiar(&mut r, s.as_slice(), 0, n as usize);
    assert(r@ =~= s@.take(n as int));
    r
}

/// Mas sectores de los que se pueden pedir.
const PEDIDOS_MAX: u64 = 0x1_0000_0000;

fn esta_entero(d: &[u8], g: bool, id: u32) -> (r: bool)
    requires
        g == grande(d@),
    ensures
        r == cabe(d@, id as int),
{
    en_octetos(id as u64 + 2, g) <= d.len() as u64
}

fn mas_pedidos(h: u64, id: u32) -> (r: u64)
    requires
        h <= PEDIDOS_MAX,
    ensures
        r == pedidos(h as int, id as int),
        r <= PEDIDOS_MAX,
{
    if (id as u64) < h {
        h
    } else {
        id as u64 + 1
    }
}

fn lee_sector(d: &[u8], g: bool, id: u32, h: u64) -> (r: Option<Vec<u8>>)
    requires
        g == grande(d@),
        h <= PEDIDOS_MAX,
    ensures
        match r {
            Some(v) => sector(d@, id as int, h as int) == Some(v@),
            None => sector(d@, id as int, h as int) is None,
        },
{
    let total: u64 = d.len() as u64;
    let a: u64 = en_octetos(id as u64 + 1, g);
    let b: u64 = en_octetos(id as u64 + 2, g);
    let mut r: Vec<u8> = Vec::new();
    if (id as u64) < h || b <= total {
        let mut p: u64 = a;
        while p < b
            invariant
                total == d@.len(),
                a <= p <= b,
                r@.len() == p - a,
                forall|i: int| 0 <= i < p - a ==> r@[i] == byte_en(d@, a + i),
            decreases b - p,
        {
            if p < total {
                r.push(d[p as usize]);
            } else {
                r.push(0);
            }
            p = p + 1;
        }
        assert(r@ =~= relleno(d@, id as int));
        Some(r)
    } else if a <= total {
        copiar(&mut r, d, a as usize, d.len());
        assert(r@ =~= d@.subrange(a as int, d@.len() as int));
        Some(r)
    } else if id as u64 == h {
        assert(r@ =~= Seq::<u8>::empty());
        Some(r)
    } else {
        None
    }
}

fn lee_tablas(d: &[u8], g: bool) -> (r: Option<(Vec<u32>, u64)>)
    requires
        d@.len() >= 512,
        g == grande(d@),
    ensures
        match r {
            Some(t) => primeras_tablas(d@) == Some((t.0@, t.1 as int)) && t.1 <= PEDIDOS_MAX,
            None => primeras_tablas(d@) is None,
        },
{
    let mut acc: Vec<u32> = lee_numeros(d, 76, 512);
    let mut id: u32 = lee32(d, 68);
    let mut h: u64 = 0;
    let mut pasos: usize = d.len() / 512;
    while id < RESERVADO
        invariant
            g == grande(d@),
            h <= PEDIDOS_MAX,
            tablas(d@, id as int, h as int, acc@, pasos as nat) == primeras_tablas(d@),
        decreases
                (if h < RESERVADO {
                    RESERVADO - h
                } else {
                    0
                }),
                pasos,
    {
        match lee_sector(d, g, id, h) {
            None => {
                return None;
            },
            Some(s) => {
                let fin: usize = s.len();
                if fin % 4 != 0 {
                    return None;
                }
                let ns = lee_numeros(s.as_slice(), 0, fin);
                let n: usize = ns.len();
                let ghost antes = acc@;
                anadir(&mut acc, &ns, n);
                assert(acc@ =~= antes + ns@);
                let ghost todo = acc@;
                match acc.pop() {
                    None => {
                        return None;
                    },
                    Some(sig) => {
                        assert(acc@ =~= todo.drop_last());
                        if !((id as u64) < h || esta_entero(d, g, id)) {
                            pasos = id as usize + 1;
                        } else if pasos == 0 {
                            return None;
                        } else {
                            pasos = pasos - 1;
                        }
                        h = mas_pedidos(h, id);
                        id = sig;
                    },
                }
            },
        }
    }
    Some((acc, h))
}

fn lee_tabla_sectores(d: &[u8], g: bool, ids: &Vec<u32>, inicial: u64) -> (r: Option<
    (Vec<u32>, u64),
>)
    requires
        g == grande(d@),
        inicial <= PEDIDOS_MAX,
    ensures
        match r {
            Some(t) => tabla_sectores(d@, ids@, 0, inicial as int, seq![]) == Some(
                (t.0@, t.1 as int),
            ) && t.1 <= PEDIDOS_MAX,
            None => tabla_sectores(d@, ids@, 0, inicial as int, seq![]) is None,
        },
{
    let mut acc: Vec<u32> = Vec::new();
    let mut h: u64 = inicial;
    let mut k: usize = 0;
    assert(acc@ =~= Seq::<u32>::empty());
    while k < ids.len()
        invariant
            g == grande(d@),
            0 <= k <= ids@.len(),
            h <= PEDIDOS_MAX,
            tabla_sectores(d@, ids@, k as int, h as int, acc@) == tabla_sectores(
                d@,
                ids@,
                0,
                inicial as int,
                seq![],
            ),
        decreases ids@.len() - k,
    {
        let id: u32 = ids[k];
        if id < SIN_TABLA {
            match lee_sector(d, g, id, h) {
                None => {
                    return None;
                },
                Some(s) => {
                    let fin: usize = s.len();
                    if fin % 4 != 0 {
                        return None;
                    }
                    let ns = lee_numeros(s.as_slice(), 0, fin);
                    let n: usize = ns.len();
                    let ghost antes = acc@;
                    anadir(&mut acc, &ns, n);
                    assert(acc@ =~= antes + ns@);
                    h = mas_pedidos(h, id);
                },
            }
        }
        k = k + 1;
    }
    Some((acc, h))
}

fn lee_cadena(d: &[u8], g: bool, fat: &Vec<u32>, inicio: u32, inicial: u64) -> (r: Option<
    (Vec<u8>, u64),
>)
    requires
        g == grande(d@),
        inicial <= PEDIDOS_MAX,
    ensures
        match r {
            Some(p) => cadena(d@, fat@, inicio as int, inicial as int, seq![], fat@.len()) == Some(
                (p.0@, p.1 as int),
            ) && p.1 <= PEDIDOS_MAX,
            None => cadena(d@, fat@, inicio as int, inicial as int, seq![], fat@.len()) is None,
        },
{
    let mut acc: Vec<u8> = Vec::new();
    let mut id: u32 = inicio;
    let mut h: u64 = inicial;
    let mut pasos: usize = fat.len();
    assert(acc@ =~= Seq::<u8>::empty());
    while id != FIN_CADENA
        invariant
            g == grande(d@),
            h <= PEDIDOS_MAX,
            cadena(d@, fat@, id as int, h as int, acc@, pasos as nat) == cadena(
                d@,
                fat@,
                inicio as int,
                inicial as int,
                seq![],
                fat@.len(),
            ),
        decreases pasos,
    {
        if pasos == 0 || id as u64 >= fat.len() as u64 {
            return None;
        }
        match lee_sector(d, g, id, h) {
            None => {
                return None;
            },
            Some(s) => {
                let ghost antes = acc@;
                copiar(&mut acc, s.as_slice(), 0, s.len());
                assert(acc@ =~= antes + s@);
            },
        }
        h = mas_pedidos(h, id);
        id = fat[id as usize];
        pasos = pasos - 1;
    }
    Some((acc, h))
}

fn lee_cadena_menor(d: &[u8], desde: usize, menores: &Vec<u8>, fat: &Vec<u32>, inicio: u32) -> (r:
    Option<Vec<u8>>)
    requires
        desde <= d@.len(),
    ensures
        match r {
            Some(v) => cadena_menor(
                d@,
                desde as int,
                menores@,
                fat@,
                inicio as int,
                seq![],
                fat@.len(),
            ) == Some(v@),
            None => cadena_menor(
                d@,
                desde as int,
                menores@,
                fat@,
                inicio as int,
                seq![],
                fat@.len(),
            ) is None,
        },
{
    let mut m: Vec<u8> = Vec::new();
    copiar(&mut m, menores.as_slice(), 0, menores.len());
    assert(m@ =~= menores@);
    let mut p: usize = desde;
    let mut acc: Vec<u8> = Vec::new();
    let mut id: u32 = inicio;
    let mut pasos: usize = fat.len();
    assert(acc@ =~= Seq::<u8>::empty());
    while id != FIN_CADENA
        invariant
            p <= d@.len(),
            cadena_menor(d@, p as int, m@, fat@, id as int, acc@, pasos as nat) == cadena_menor(
                d@,
                desde as int,
                menores@,
                fat@,
                inicio as int,
                seq![],
                fat@.len(),
            ),
        decreases pasos,
    {
        if pasos == 0 || id as u64 >= fat.len() as u64 {
            return None;
        }
        let a: u64 = 64 * (id as u64);
        let b: u64 = a + 64;
        let quedan: usize = d.len() - p;
        let hay: u64 = m.len() as u64;
        let fin: usize = if b <= hay {
            p
        } else if b - hay <= quedan as u64 {
            p + (b - hay) as usize
        } else {
            d.len()
        };
        assert(fin == tras_leer(d@, p as int, b - m@.len()));
        copiar(&mut m, d, p, fin);
        p = fin;
        let ghost m2 = m@;
        if b <= m.len() as u64 {
            copiar(&mut acc, m.as_slice(), a as usize, b as usize);
        } else if a <= m.len() as u64 {
            copiar(&mut acc, m.as_slice(), a as usize, m.len());
            let faltan: u64 = b - m.len() as u64;
            let mut i: u64 = 0;
            assert(m@ =~= m2 + Seq::new(0, |k: int| 0u8));
            while i < faltan
                invariant
                    i <= faltan,
                    m@ == m2 + Seq::new(i as nat, |k: int| 0u8),
                decreases faltan - i,
            {
                m.push(0);
                i = i + 1;
                assert(m@ =~= m2 + Seq::new(i as nat, |k: int| 0u8));
            }
        } else {
            return None;
        }
        id = fat[id as usize];
        pasos = pasos - 1;
    }
    Some(acc)
}

fn lee_largo(dirs: &Vec<u8>, i: usize, g: bool) -> (r: u64)
    requires
        entera(dirs@, i as int, g),
    ensures
        r == largo_de(dirs@, i as int, g),
{
    assert(dirs@.len() == dirs.len());
    let p: usize = 128 * i;
    let bajo: u64 = lee32(dirs.as_slice(), p + 120) as u64;
    if g {
        bajo + 4294967296 * (lee32(dirs.as_slice(), p + 124) as u64)
    } else {
        bajo
    }
}

fn lee_letra(dirs: &Vec<u8>, i: usize, k: usize) -> (r: u32)
    requires
        128 * i + 124 <= dirs@.len(),
        k <= 32,
    ensures
        r == letra(dirs@, i as int, k as int),
{
    assert(dirs@.len() == dirs.len());
    let p: usize = 128 * i;
    let marca: u32 = lee16(dirs.as_slice(), p);
    if marca == 0xFEFF {
        lee16(dirs.as_slice(), p + 2 + 2 * k)
    } else if marca == 0xFFFE {
        256 * (dirs[p + 2 + 2 * k] as u32) + dirs[p + 3 + 2 * k] as u32
    } else if marca == 0xBBEF && dirs[p + 2] == 0xBF {
        dirs[p + 3 + k] as u32
    } else {
        lee16(dirs.as_slice(), p + 2 * k)
    }
}

fn es_su_nombre(dirs: &Vec<u8>, i: usize, nombre: &Vec<char>) -> (r: bool)
    requires
        128 * i + 124 <= dirs@.len(),
        nombre@.len() < 32,
    ensures
        r == se_llama(dirs@, i as int, nombre@),
{
    let n: usize = nombre.len();
    let mut k: usize = 0;
    while k < n
        invariant
            128 * i + 124 <= dirs@.len(),
            0 <= k <= n == nombre@.len() < 32,
            forall|j: int|
                0 <= j < k ==> letra(dirs@, i as int, j) == (#[trigger] nombre@[j]) as u32,
        decreases n - k,
    {
        let c: char = nombre[k];
        if lee_letra(dirs, i, k) != c as u32 {
            return false;
        }
        k = k + 1;
    }
    lee_letra(dirs, i, n) == 0
}

fn cuenta_entradas(dirs: &Vec<u8>) -> (r: usize)
    ensures
        r == cuantas(dirs@),
{
    if dirs.len() % 128 == 0 {
        dirs.len() / 128
    } else {
        dirs.len() / 128 + 1
    }
}

fn busca_entrada(dirs: &Vec<u8>, g: bool, nombre: &str) -> (r: Option<usize>)
    requires
        entradas_sanas(dirs@, g),
        nombre@.len() < 32,
    ensures
        match r {
            Some(i) => entrada(dirs@, nombre@, 0) == Some(i as int) && entera(dirs@, i as int, g),
            None => entrada(dirs@, nombre@, 0) is None,
        },
{
    let letras = texto::caracteres(nombre);
    let n: usize = cuenta_entradas(dirs);
    let mut i: usize = 0;
    while i < n
        invariant
            0 <= i <= n == cuantas(dirs@),
            entradas_sanas(dirs@, g),
            letras@ == nombre@,
            nombre@.len() < 32,
            entrada(dirs@, nombre@, i as int) == entrada(dirs@, nombre@, 0),
        decreases n - i,
    {
        assert(entrada_sana(dirs@, i as int, g));
        if es_su_nombre(dirs, i, &letras) {
            return Some(i);
        }
        i = i + 1;
    }
    None
}

fn entradas_bien(dirs: &Vec<u8>, g: bool) -> (r: bool)
    ensures
        r == entradas_sanas(dirs@, g),
{
    assert(dirs@.len() == dirs.len());
    let n: usize = cuenta_entradas(dirs);
    let minimo: usize = if g {
        128
    } else {
        124
    };
    let mut i: usize = 0;
    while i < n
        invariant
            0 <= i <= n == cuantas(dirs@),
            dirs@.len() <= usize::MAX,
            minimo == (if g {
                128int
            } else {
                124
            }),
            forall|j: int| 0 <= j < i ==> #[trigger] entrada_sana(dirs@, j, g),
        decreases n - i,
    {
        let quedan: usize = dirs.len() - 128 * i;
        let sana = quedan >= minimo && lee_largo(dirs, i, g) <= usize::MAX as u64;
        assert(sana == entrada_sana(dirs@, i as int, g));
        if !sana {
            return false;
        }
        i = i + 1;
    }
    true
}

/// El contenedor ya recorrido.
struct Recorrido {
    fat: Vec<u32>,
    dirs: Vec<u8>,
    menores: Vec<u8>,
    fat_menor: Vec<u32>,
    h: u64,
}

impl View for Recorrido {
    type V = Mapa;

    closed spec fn view(&self) -> Mapa {
        Mapa {
            fat: self.fat@,
            dirs: self.dirs@,
            menores: self.menores@,
            fat_menor: self.fat_menor@,
            h: self.h as int,
        }
    }
}

fn hasta_donde(d: &[u8], g: bool, h: u64) -> (r: usize)
    requires
        g == grande(d@),
        h <= PEDIDOS_MAX,
    ensures
        r == leido(d@, h as int),
        r <= d@.len(),
{
    let fin: u64 = en_octetos(h + 1, g);
    if fin <= d.len() as u64 {
        fin as usize
    } else {
        d.len()
    }
}

fn lee_flujo_de(d: &[u8], g: bool, m: &Recorrido, i: usize) -> (r: Flujo)
    requires
        g == grande(d@),
        m@.h <= PEDIDOS_MAX,
        entera(m@.dirs, i as int, g),
    ensures
        r@ == flujo_de(d@, m@, i as int),
{
    let largo: u64 = lee_largo(&m.dirs, i, g);
    assert(m.dirs@.len() == m.dirs.len());
    let inicio: u32 = lee32(m.dirs.as_slice(), 128 * i + 116);
    if largo < 4096 {
        let desde: usize = hasta_donde(d, g, m.h);
        match lee_cadena_menor(d, desde, &m.menores, &m.fat_menor, inicio) {
            None => Flujo::Roto,
            Some(s) => Flujo::Bytes(recortado(s, largo)),
        }
    } else if !se_reserva(d, largo) {
        Flujo::Roto
    } else {
        match lee_cadena(d, g, &m.fat, inicio, m.h) {
            None => Flujo::Roto,
            Some((s, _)) => Flujo::Bytes(recortado(s, largo)),
        }
    }
}

fn lee_flujo_libro(d: &[u8], g: bool, m: &Recorrido) -> (r: Flujo)
    requires
        g == grande(d@),
        m@.h <= PEDIDOS_MAX,
        entradas_sanas(m@.dirs, g),
    ensures
        r@ == flujo_libro(d@, m@),
{
    proof {
        reveal_strlit("_VBA_PROJECT_CUR");
        reveal_strlit("Workbook");
        reveal_strlit("Book");
    }
    if busca_entrada(&m.dirs, g, "_VBA_PROJECT_CUR").is_some() {
        return Flujo::Macros;
    }
    match busca_entrada(&m.dirs, g, "Workbook") {
        Some(i) => lee_flujo_de(d, g, m, i),
        None => match busca_entrada(&m.dirs, g, "Book") {
            Some(i) => lee_flujo_de(d, g, m, i),
            None => Flujo::Nada,
        },
    }
}

fn lee_directorio(d: &[u8], g: bool, fat: Vec<u32>, dirs: Vec<u8>, h: u64) -> (r: Flujo)
    requires
        d@.len() >= 512,
        g == grande(d@),
        h <= PEDIDOS_MAX,
    ensures
        r@ == con_directorio(d@, fat@, dirs@, h as int),
{
    if !entradas_bien(&dirs, g) {
        return Flujo::Roto;
    }
    if dirs.len() == 0 {
        return Flujo::Nada;
    }
    assert(entrada_sana(dirs@, 0, g));
    let raiz: u32 = lee32(dirs.as_slice(), 116);
    if lee16(d, 26) != 3 && raiz == FIN_CADENA {
        return Flujo::Nada;
    }
    let sectores: u32 = lee32(d, 64);
    if sectores == 0 {
        let m = Recorrido { fat, dirs, menores: Vec::new(), fat_menor: Vec::new(), h };
        assert(m@ =~= Mapa {
            fat: fat@,
            dirs: dirs@,
            menores: seq![],
            fat_menor: seq![],
            h: h as int,
        });
        return lee_flujo_libro(d, g, &m);
    }
    let largo: u64 = lee_largo(&dirs, 0, g);
    let ocupa: u64 = en_octetos(sectores as u64, g);
    if !se_reserva(d, largo) || !se_reserva(d, ocupa) {
        return Flujo::Roto;
    }
    match lee_cadena(d, g, &fat, raiz, h) {
        None => Flujo::Roto,
        Some((menores, h)) => match lee_cadena(d, g, &fat, lee32(d, 60), h) {
            None => Flujo::Roto,
            Some((t, h)) => {
                let t = recortado(t, ocupa);
                if t.len() % 4 != 0 {
                    return Flujo::Roto;
                }
                let fin: usize = t.len();
                let fat_menor = lee_numeros(t.as_slice(), 0, fin);
                let m = Recorrido { fat, dirs, menores: recortado(menores, largo), fat_menor, h };
                lee_flujo_libro(d, g, &m)
            },
        },
    }
}

pub(crate) fn lee_flujo(d: &[u8]) -> (r: Flujo)
    ensures
        r@ == flujo(d@),
{
    if !tiene_cabecera(d) {
        return Flujo::Nada;
    }
    let g = lee16(d, 30) != 9;
    if !se_reserva(d, en_octetos(lee32(d, 40) as u64, g)) || !se_reserva(
        d,
        4 * (lee32(d, 44) as u64),
    ) || !se_reserva(d, 4 * (lee32(d, 62) as u64)) {
        return Flujo::Roto;
    }
    match lee_tablas(d, g) {
        None => Flujo::Roto,
        Some((ids, h)) => match lee_tabla_sectores(d, g, &ids, h) {
            None => Flujo::Roto,
            Some((fat, h)) => match lee_cadena(d, g, &fat, lee32(d, 48), h) {
                None => Flujo::Roto,
                Some((c, h)) => {
                    let dirs = recortado(c, en_octetos(lee32(d, 40) as u64, g));
                    lee_directorio(d, g, fat, dirs, h)
                },
            },
        },
    }
}

// ---------------------------------------------------------------------------
// Leyes
// ---------------------------------------------------------------------------

/// Los numeros van con el byte menor delante.
pub proof fn ley_numero_de_bytes(s: Seq<u8>, i: int)
    requires
        0 <= i,
        i + 4 <= s.len(),
    ensures
        0 <= n16(s, i) < 0x1_0000,
        n16(s, i) % 256 == s[i] && n16(s, i) / 256 == s[i + 1],
        0 <= n32(s, i) < 0x1_0000_0000,
        n32(s, i) % 65536 == n16(s, i) && n32(s, i) / 65536 == n16(s, i + 2),
{
    let a = n16(s, i);
    let b = n16(s, i + 2);
    assert(0 <= a < 65536 && 0 <= b < 65536);
    assert((a + 65536 * b) % 65536 == a && (a + 65536 * b) / 65536 == b) by (nonlinear_arith)
        requires
            0 <= a < 65536,
            0 <= b,
    ;
    let x = s[i] as int;
    let y = s[i + 1] as int;
    assert((x + 256 * y) % 256 == x && (x + 256 * y) / 256 == y) by (nonlinear_arith)
        requires
            0 <= x < 256,
            0 <= y,
    ;
}

/// Una tabla de numeros tiene uno por cada cuatro bytes, cada uno el de los suyos.
pub proof fn ley_tabla_de_numeros(s: Seq<u8>, a: int, b: int, k: int)
    requires
        0 <= a <= b <= s.len(),
    ensures
        numeros(s, a, b).len() == (b - a) / 4,
        0 <= k < (b - a) / 4 ==> numeros(s, a, b)[k] == n32(s, a + 4 * k),
{
    if 0 <= k < (b - a) / 4 {
        ley_numero_de_bytes(s, a + 4 * k);
    }
}

/// Un sector de un contenedor entero son sus bytes, tras los de la cabecera.
pub proof fn ley_sector(d: Seq<u8>, id: int, h: int)
    requires
        0 <= id,
        0 <= h,
    ensures
        ({
            let n: int = if n16(d, 30) == 9 {
                512
            } else {
                4096
            };
            let a = n * (id + 1);
            &&& n == octetos(1, grande(d))
            &&& a + n <= d.len() ==> cabe(d, id) && sector(d, id, h) == Some(d.subrange(a, a + n))
            &&& a + n > d.len() ==> !cabe(d, id)
            &&& a <= d.len() < a + n && id >= h ==> sector(d, id, h) == Some(
                d.subrange(a, d.len() as int),
            )
            &&& a > d.len() && id > h ==> sector(d, id, h) is None
            &&& a > d.len() && id == h ==> sector(d, id, h) == Some(Seq::<u8>::empty())
            &&& id < h ==> (sector(d, id, h) matches Some(s) && s.len() == n)
        }),
{
    let g = grande(d);
    let n: int = if n16(d, 30) == 9 {
        512
    } else {
        4096
    };
    let a = n * (id + 1);
    assert(octetos(id + 1, g) == a);
    assert(octetos(id + 2, g) == a + n);
    if a + n <= d.len() {
        assert(relleno(d, id) =~= d.subrange(a, a + n));
    }
}

/// Una cadena acaba donde dice la tabla; hasta ahi se le van sumando sus sectores, y lo que ya se
/// tenia no cambia.
pub proof fn ley_cadena(
    d: Seq<u8>,
    fat: Seq<u32>,
    id: int,
    h: int,
    acc: Seq<u8>,
    pasos: nat,
)
    requires
        0 <= id,
    ensures
        cadena(d, fat, 0xFFFF_FFFE, h, acc, pasos) == Some((acc, h)),
        id != 0xFFFF_FFFE && id >= fat.len() ==> cadena(d, fat, id, h, acc, pasos) is None,
        id < fat.len() && id != 0xFFFF_FFFE && sector(d, id, h) is None ==> cadena(
            d,
            fat,
            id,
            h,
            acc,
            pasos,
        ) is None,
        id < fat.len() && id != 0xFFFF_FFFE ==> (sector(d, id, h) matches Some(s) ==> cadena(
            d,
            fat,
            id,
            h,
            acc,
            pasos + 1,
        ) == cadena(
            d,
            fat,
            fat[id] as int,
            (if id < h {
                h
            } else {
                id + 1
            }),
            acc + s,
            pasos,
        )),
        cadena(d, fat, id, h, acc, pasos) matches Some(p) ==> acc.is_prefix_of(p.0),
    decreases pasos,
{
    if id != FIN_CADENA && pasos > 0 && id < fat.len() {
        if let Some(s) = sector(d, id, h) {
            ley_cadena(d, fat, fat[id] as int, pedidos(h, id), acc + s, (pasos - 1) as nat);
            if let Some(p) = cadena(d, fat, id, h, acc, pasos) {
                assert((acc + s).is_prefix_of(p.0));
                assert(acc =~= p.0.subrange(0, acc.len() as int));
            }
        }
    }
}

/// Un flujo se recorta a lo que dice medir, y si no lo dice o mide menos se queda entero.
pub proof fn ley_recorte_de_flujo(s: Seq<u8>, n: int)
    ensures
        0 < n < s.len() ==> recorte(s, n).len() == n && recorte(s, n) + s.skip(n) == s,
        n <= 0 || n >= s.len() ==> recorte(s, n) == s,
{
    if 0 < n < s.len() {
        assert(s.take(n) + s.skip(n) =~= s);
    }
}

/// Solo se reserva lo que pasa del contenedor en un gigabyte como mucho.
pub proof fn ley_reservable(d: Seq<u8>, n: int)
    ensures
        n <= d.len() && d.len() <= isize::MAX ==> reservable(d, n),
        reservable(d, n) ==> n - d.len() <= 1024 * 1024 * 1024 && n <= isize::MAX,
        n - d.len() <= 1024 * 1024 * 1024 && n <= isize::MAX ==> reservable(d, n),
{
}

/// Una entrada del directorio no tiene dos nombres.
pub proof fn ley_nombre_de_entrada(dirs: Seq<u8>, i: int, a: Seq<char>, b: Seq<char>)
    requires
        se_llama(dirs, i, a),
        se_llama(dirs, i, b),
        !a.contains('\0'),
        !b.contains('\0'),
    ensures
        a == b,
{
    let m = if a.len() <= b.len() {
        a.len() as int
    } else {
        b.len() as int
    };
    assert forall|k: int| 0 <= k < m implies a[k] == b[k] by {
        assert(letra(dirs, i, k) == a[k] as u32);
        assert(letra(dirs, i, k) == b[k] as u32);
        lema_mismo_caracter(a[k], b[k]);
    }
    if a.len() < b.len() {
        assert(letra(dirs, i, m) == b[m] as u32);
        lema_mismo_caracter(b[m], '\0');
    } else if b.len() < a.len() {
        assert(letra(dirs, i, m) == a[m] as u32);
        lema_mismo_caracter(a[m], '\0');
    }
    assert(a =~= b);
}

proof fn lema_mismo_caracter(a: char, b: char)
    requires
        a as u32 == b as u32,
    ensures
        a == b,
{
}

/// La entrada de un nombre es la primera que se llama asi.
pub proof fn ley_entrada(dirs: Seq<u8>, nombre: Seq<char>, i: int)
    ensures
        match entrada(dirs, nombre, i) {
            Some(k) => i <= k && 128 * k < dirs.len() && se_llama(dirs, k, nombre) && forall|j: int|
                i <= j < k ==> !#[trigger] se_llama(dirs, j, nombre),
            None => forall|j: int|
                i <= j && 128 * j < dirs.len() ==> !#[trigger] se_llama(dirs, j, nombre),
        },
    decreases cuantas(dirs) - i,
{
    if i < cuantas(dirs) {
        if !se_llama(dirs, i, nombre) {
            ley_entrada(dirs, nombre, i + 1);
        }
    }
}

/// De las entradas de un contenedor manda la de las macros; si no, la del libro, y si no la del
/// libro antiguo.
pub proof fn ley_flujo_del_libro(d: Seq<u8>, m: Mapa)
    ensures
        entrada(m.dirs, "_VBA_PROJECT_CUR"@, 0) is Some <==> flujo_libro(d, m) is Macros,
        entrada(m.dirs, "_VBA_PROJECT_CUR"@, 0) is None ==> (entrada(m.dirs, "Workbook"@, 0) matches
            Some(i) ==> flujo_libro(d, m) == flujo_de(d, m, i)),
        entrada(m.dirs, "_VBA_PROJECT_CUR"@, 0) is None && entrada(m.dirs, "Workbook"@, 0) is None
            ==> (entrada(m.dirs, "Book"@, 0) matches Some(i) ==> flujo_libro(d, m) == flujo_de(
            d,
            m,
            i,
        )),
        flujo_libro(d, m) is Nada <==> entrada(m.dirs, "_VBA_PROJECT_CUR"@, 0) is None && entrada(
            m.dirs,
            "Workbook"@,
            0,
        ) is None && entrada(m.dirs, "Book"@, 0) is None,
{
}

/// Un contenedor se conoce por su firma, su orden de bytes y sus sectores; sin cabecera no hay
/// flujo.
pub proof fn ley_cabecera(d: Seq<u8>)
    ensures
        !con_cabecera(d) ==> flujo(d) is Nada,
        con_cabecera(d) ==> d.len() >= 512 && d[0] == 0xD0 && d[1] == 0xCF && d[2] == 0x11 && d[3]
            == 0xE0 && d[4] == 0xA1 && d[5] == 0xB1 && d[6] == 0x1A && d[7] == 0xE1,
        con_cabecera(d) ==> n16(d, 30) == 9 || n16(d, 30) == 12,
        con_cabecera(d) && !medidas_sanas(d) ==> flujo(d) is Roto,
{
    if con_cabecera(d) {
        ley_numero_de_bytes(d, 0);
        ley_numero_de_bytes(d, 2);
        ley_numero_de_bytes(d, 4);
        ley_numero_de_bytes(d, 6);
    }
}

/// La tabla de sectores se lee sector a sector: los que no estan se saltan y los demas se suman en
/// su orden.
pub proof fn ley_tabla_de_sectores(d: Seq<u8>, ids: Seq<u32>, k: int, h: int, acc: Seq<u32>)
    requires
        0 <= k < ids.len(),
    ensures
        tabla_sectores(d, ids, ids.len() as int, h, acc) == Some((acc, h)),
        ids[k] >= 0xFFFF_FFFC ==> tabla_sectores(d, ids, k, h, acc) == tabla_sectores(
            d,
            ids,
            k + 1,
            h,
            acc,
        ),
        ids[k] < 0xFFFF_FFFC && sector(d, ids[k] as int, h) is None ==> tabla_sectores(
            d,
            ids,
            k,
            h,
            acc,
        ) is None,
        ids[k] < 0xFFFF_FFFC ==> (sector(d, ids[k] as int, h) matches Some(s) ==> if s.len() % 4 == 0 {
            tabla_sectores(d, ids, k, h, acc) == tabla_sectores(
                d,
                ids,
                k + 1,
                (if ids[k] < h {
                    h
                } else {
                    ids[k] + 1
                }),
                acc + numeros(s, 0, s.len() as int),
            )
        } else {
            tabla_sectores(d, ids, k, h, acc) is None
        }),
{
}

/// Una cadena de sectores menores acaba donde dice su tabla, y cada sector que cabe suma sesenta y
/// cuatro bytes, los suyos.
pub proof fn ley_cadena_menor(
    d: Seq<u8>,
    p: int,
    m: Seq<u8>,
    fat: Seq<u32>,
    id: int,
    acc: Seq<u8>,
    pasos: nat,
)
    requires
        0 <= id,
        0 <= p <= d.len(),
    ensures
        cadena_menor(d, p, m, fat, 0xFFFF_FFFE, acc, pasos) == Some(acc),
        id != 0xFFFF_FFFE && id >= fat.len() ==> cadena_menor(d, p, m, fat, id, acc, pasos) is None,
        id != 0xFFFF_FFFE && id < fat.len() && 64 * (id + 1) <= m.len() ==> cadena_menor(
            d,
            p,
            m,
            fat,
            id,
            acc,
            pasos + 1,
        ) == cadena_menor(
            d,
            p,
            m,
            fat,
            fat[id] as int,
            acc + m.subrange(64 * id, 64 * id + 64),
            pasos,
        ),
{
    assert(d.subrange(p, p) =~= Seq::<u8>::empty());
    assert(m + Seq::<u8>::empty() =~= m);
}

/// Una entrada del directorio mide ciento veintiocho bytes, y de ellos salen su comienzo y su
/// largo.
pub proof fn ley_entrada_de_directorio(dirs: Seq<u8>, i: int, g: bool)
    requires
        0 <= i,
        128 * i + 128 <= dirs.len(),
    ensures
        entera(dirs, i, g),
        inicio_de(dirs, i) == n32(dirs, 128 * i + 116),
        largo_de(dirs, i, false) == n32(dirs, 128 * i + 120),
        largo_de(dirs, i, true) % 0x1_0000_0000 == n32(dirs, 128 * i + 120),
        largo_de(dirs, i, true) / 0x1_0000_0000 == n32(dirs, 128 * i + 124),
        i < cuantas(dirs),
        128 * cuantas(dirs) >= dirs.len() && 128 * (cuantas(dirs) - 1) < dirs.len(),
{
    ley_numero_de_bytes(dirs, 128 * i + 120);
    ley_numero_de_bytes(dirs, 128 * i + 124);
    let a = n32(dirs, 128 * i + 120);
    let b = n32(dirs, 128 * i + 124);
    assert((a + 4294967296 * b) % 4294967296 == a && (a + 4294967296 * b) / 4294967296 == b)
        by (nonlinear_arith)
        requires
            0 <= a < 4294967296,
            0 <= b,
    ;
}

} // verus!
