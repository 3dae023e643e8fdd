//! Calendario gregoriano: fechas, rangos de captura y hora de Peru.

use crate::texto;
use chrono::Datelike;
use vstd::prelude::*;

verus! {

// ---------------------------------------------------------------------------
// Calendario
// ---------------------------------------------------------------------------

#[verifier::opaque]
pub open spec fn bisiesto(y: int) -> bool {
    y % 4 == 0 && (y % 100 != 0 || y % 400 == 0)
}

pub open spec fn dias_del_mes(y: int, m: int) -> int {
    if m == 2 {
        if bisiesto(y) {
            29
        } else {
            28
        }
    } else if m == 4 || m == 6 || m == 9 || m == 11 {
        30
    } else {
        31
    }
}

/// Dias anteriores al 1 de enero del ano `y`, contados desde el 1 de enero
/// del ano 1.
#[verifier::opaque]
pub open spec fn dias_hasta_anho(y: int) -> int {
    365 * (y - 1) + (y - 1) / 4 - (y - 1) / 100 + (y - 1) / 400
}

/// Dias del ano `y` anteriores al mes `m`.
pub open spec fn dias_hasta_mes(y: int, m: int) -> int
    decreases m,
{
    if m <= 1 {
        0
    } else {
        dias_hasta_mes(y, m - 1) + dias_del_mes(y, m - 1)
    }
}

/// Numero de orden de un dia: el 1 de enero del ano 1 es el dia 1.
pub open spec fn numero_dia(y: int, m: int, d: int) -> int {
    dias_hasta_anho(y) + dias_hasta_mes(y, m) + d
}

/// `y`-`m`-`d` existe en el calendario.
pub open spec fn existe(y: int, m: int, d: int) -> bool {
    1 <= m <= 12 && 1 <= d <= dias_del_mes(y, m)
}

/// Primer y ultimo ano que admite el calendario.
pub const ANHO_MIN: i32 = -262143;

pub const ANHO_MAX: i32 = 262142;

/// Una fecha del calendario.
#[derive(Debug, Clone, Copy, PartialEq, Eq, Structural)]
pub struct Fecha {
    pub anho: i32,
    pub mes: u32,
    pub dia: u32,
}

impl Fecha {
    /// La fecha existe y su ano esta entre los admitidos.
    pub open spec fn valida(self) -> bool {
        ANHO_MIN <= self.anho <= ANHO_MAX && existe(self.anho as int, self.mes as int, self.dia as int)
    }

    pub open spec fn numero(self) -> int {
        numero_dia(self.anho as int, self.mes as int, self.dia as int)
    }
}

pub open spec fn numero_min() -> int {
    numero_dia(ANHO_MIN as int, 1, 1)
}

pub open spec fn numero_max() -> int {
    numero_dia(ANHO_MAX as int, 12, 31)
}

// ---------------------------------------------------------------------------
// Propiedades del calendario
// ---------------------------------------------------------------------------

proof fn lema_cociente_4(y: int)
    ensures
        y / 4 == (y - 1) / 4 + (if y % 4 == 0 {
            1int
        } else {
            0
        }),
{
}

proof fn lema_cociente_100(y: int)
    ensures
        y / 100 == (y - 1) / 100 + (if y % 100 == 0 {
            1int
        } else {
            0
        }),
{
}

proof fn lema_cociente_400(y: int)
    ensures
        y / 400 == (y - 1) / 400 + (if y % 400 == 0 {
            1int
        } else {
            0
        }),
{
}

pub proof fn lema_anho_siguiente(y: int)
    ensures
        dias_hasta_anho(y + 1) == dias_hasta_anho(y) + (if bisiesto(y) {
            366int
        } else {
            365
        }),
{
    reveal(bisiesto);
    reveal(dias_hasta_anho);
    lema_cociente_4(y);
    lema_cociente_100(y);
    lema_cociente_400(y);
    if y % 400 == 0 {
        assert(y == 400 * (y / 400));
        assert(y % 100 == 0);
    }
    if y % 100 == 0 {
        assert(y == 100 * (y / 100));
        assert(y % 4 == 0);
    }
}

pub proof fn lema_tabla_meses(y: int)
    ensures
        dias_hasta_mes(y, 1) == 0,
        dias_hasta_mes(y, 2) == 31,
        dias_hasta_mes(y, 3) == 59 + (if bisiesto(y) { 1int } else { 0 }),
        dias_hasta_mes(y, 4) == 90 + (if bisiesto(y) { 1int } else { 0 }),
        dias_hasta_mes(y, 5) == 120 + (if bisiesto(y) { 1int } else { 0 }),
        dias_hasta_mes(y, 6) == 151 + (if bisiesto(y) { 1int } else { 0 }),
        dias_hasta_mes(y, 7) == 181 + (if bisiesto(y) { 1int } else { 0 }),
        dias_hasta_mes(y, 8) == 212 + (if bisiesto(y) { 1int } else { 0 }),
        dias_hasta_mes(y, 9) == 243 + (if bisiesto(y) { 1int } else { 0 }),
        dias_hasta_mes(y, 10) == 273 + (if bisiesto(y) { 1int } else { 0 }),
        dias_hasta_mes(y, 11) == 304 + (if bisiesto(y) { 1int } else { 0 }),
        dias_hasta_mes(y, 12) == 334 + (if bisiesto(y) { 1int } else { 0 }),
{
    reveal_with_fuel(dias_hasta_mes, 13);
}

proof fn lema_anhos_crecen(y: int, z: int)
    requires
        y < z,
    ensures
        dias_hasta_anho(y + 1) <= dias_hasta_anho(z),
    decreases z - y,
{
    if y + 1 < z {
        lema_anhos_crecen(y, z - 1);
        lema_anho_siguiente(z - 1);
    }
}

proof fn lema_numero_crece(y: int, m: int, d: int, y2: int, m2: int, d2: int)
    requires
        existe(y, m, d),
        existe(y2, m2, d2),
        y < y2 || (y == y2 && (m < m2 || (m == m2 && d < d2))),
    ensures
        numero_dia(y, m, d) < numero_dia(y2, m2, d2),
{
    lema_tabla_meses(y);
    lema_tabla_meses(y2);
    lema_anho_siguiente(y);
    if y < y2 {
        lema_anhos_crecen(y, y2);
    }
}

/// No hay dos dias con el mismo numero.
pub proof fn lema_numero_unico(y: int, m: int, d: int, y2: int, m2: int, d2: int)
    requires
        existe(y, m, d),
        existe(y2, m2, d2),
        numero_dia(y, m, d) == numero_dia(y2, m2, d2),
    ensures
        y == y2 && m == m2 && d == d2,
{
    if y < y2 || (y == y2 && (m < m2 || (m == m2 && d < d2))) {
        lema_numero_crece(y, m, d, y2, m2, d2);
    } else if !(y == y2 && m == m2 && d == d2) {
        lema_numero_crece(y2, m2, d2, y, m, d);
    }
}

/// El orden de las fechas por ano, mes y dia es el de sus numeros de dia.
pub proof fn lema_orden(a: Fecha, b: Fecha)
    requires
        existe(a.anho as int, a.mes as int, a.dia as int),
        existe(b.anho as int, b.mes as int, b.dia as int),
    ensures
        a.numero() < b.numero() <==> (a.anho < b.anho || (a.anho == b.anho && (a.mes < b.mes || (
        a.mes == b.mes && a.dia < b.dia)))),
        a.numero() == b.numero() <==> a == b,
{
    let (y, m, d) = (a.anho as int, a.mes as int, a.dia as int);
    let (y2, m2, d2) = (b.anho as int, b.mes as int, b.dia as int);
    if y < y2 || (y == y2 && (m < m2 || (m == m2 && d < d2))) {
        lema_numero_crece(y, m, d, y2, m2, d2);
    } else if !(y == y2 && m == m2 && d == d2) {
        lema_numero_crece(y2, m2, d2, y, m, d);
    }
}

/// Toda fecha valida tiene su numero entre los de las fechas extremas.
pub proof fn lema_numero_en_rango(f: Fecha)
    requires
        f.valida(),
    ensures
        numero_min() <= f.numero() <= numero_max(),
{
    lema_orden(f, Fecha { anho: ANHO_MIN, mes: 1, dia: 1 });
    lema_orden(f, Fecha { anho: ANHO_MAX, mes: 12, dia: 31 });
}

/// Los numeros de dia caben en 32 bits con signo.
pub proof fn lema_extremos()
    ensures
        -95_800_000 < numero_min(),
        numero_max() < 95_800_000,
{
    reveal(dias_hasta_anho);
    reveal(bisiesto);
    lema_tabla_meses(ANHO_MIN as int);
    lema_tabla_meses(ANHO_MAX as int);
}

// ---------------------------------------------------------------------------
// Dias civiles
// ---------------------------------------------------------------------------

/// Dias del ciclo de 400 anos que empieza en marzo, anteriores a su ano `k`.
spec fn dias_ciclo(k: int) -> int {
    365 * k + k / 4 - k / 100
}

proof fn lema_anho_de_ciclo(doe: int, yoe: int)
    requires
        0 <= doe < 146097,
        yoe == (doe - doe / 1460 + doe / 36524 - doe / 146096) / 365,
    ensures
        0 <= yoe <= 399,
        0 <= doe - dias_ciclo(yoe) <= 365,
        doe - dias_ciclo(yoe) == 365 ==> bisiesto(yoe + 1),
{
    reveal(bisiesto);
    assert(0 <= doe / 36524 <= 4);
}

proof fn lema_ciclo_4(k: int, era: int)
    ensures
        (k + 400 * era) / 4 == 100 * era + k / 4,
        (k + 400 * era) % 4 == k % 4,
{
    let q = k / 4;
    let r = k % 4;
    assert(k == 4 * q + r);
    assert(k + 400 * era == 4 * (100 * era + q) + r);
}

proof fn lema_ciclo_100(k: int, era: int)
    ensures
        (k + 400 * era) / 100 == 4 * era + k / 100,
        (k + 400 * era) % 100 == k % 100,
{
    let q = k / 100;
    let r = k % 100;
    assert(k == 100 * q + r);
    assert(k + 400 * era == 100 * (4 * era + q) + r);
}

proof fn lema_ciclo_400(k: int, era: int)
    ensures
        (k + 400 * era) / 400 == era + k / 400,
        (k + 400 * era) % 400 == k % 400,
{
    let q = k / 400;
    let r = k % 400;
    assert(k == 400 * q + r);
    assert(k + 400 * era == 400 * (era + q) + r);
}

proof fn lema_ciclo(k: int, era: int)
    requires
        0 <= k < 400,
    ensures
        dias_hasta_anho(k + 400 * era + 1) == dias_ciclo(k) + 146097 * era,
        bisiesto(k + 400 * era + 1) == bisiesto(k + 1),
{
    reveal(bisiesto);
    reveal(dias_hasta_anho);
    lema_ciclo_4(k, era);
    lema_ciclo_100(k, era);
    lema_ciclo_400(k, era);
    lema_ciclo_4(k + 1, era);
    lema_ciclo_100(k + 1, era);
    lema_ciclo_400(k + 1, era);
    assert(k + 1 + 400 * era == k + 400 * era + 1);
    assert(k / 400 == 0);
}

/// Mes y dia del dia `doy` de un ano contado desde marzo; `y` es el ano civil
/// de ese dia.
proof fn lema_mes_de_ciclo(y: int, doy: int, mp: int, m: int, d: int)
    requires
        0 <= doy <= 365,
        mp == (5 * doy + 2) / 153,
        d == doy - (153 * mp + 2) / 5 + 1,
        m == (if mp < 10 {
            mp + 3
        } else {
            mp - 9
        }),
        doy == 365 ==> bisiesto(y),
    ensures
        existe(y, m, d),
        m > 2 ==> dias_hasta_mes(y, m) + d == doy + 1 + dias_hasta_mes(y, 3),
        m <= 2 ==> dias_hasta_mes(y, m) + d == doy + 1 - 306,
{
    lema_tabla_meses(y);
    assert(0 <= mp <= 11);
    if mp == 0 {
    } else if mp == 1 {
    } else if mp == 2 {
    } else if mp == 3 {
    } else if mp == 4 {
    } else if mp == 5 {
    } else if mp == 6 {
    } else if mp == 7 {
    } else if mp == 8 {
    } else if mp == 9 {
    } else if mp == 10 {
    } else {
        assert(mp == 11);
    }
}

/// Dia civil del dia `z`, contado desde el 1 de marzo del ano cero.
proof fn lema_civil(z: int, era: int, doe: int, yoe: int, doy: int, mp: int, y: int, m: int, d: int)
    requires
        0 <= z,
        era == z / 146097,
        doe == z - era * 146097,
        yoe == (doe - doe / 1460 + doe / 36524 - doe / 146096) / 365,
        doy == doe - (365 * yoe + yoe / 4 - yoe / 100),
        mp == (5 * doy + 2) / 153,
        d == doy - (153 * mp + 2) / 5 + 1,
        m == (if mp < 10 {
            mp + 3
        } else {
            mp - 9
        }),
        y == yoe + era * 400 + (if m <= 2 {
            1int
        } else {
            0
        }),
    ensures
        existe(y, m, d),
        numero_dia(y, m, d) == z - 305,
        0 <= yoe <= 399,
        0 <= doy <= 365,
        0 <= mp <= 11,
{
    lema_anho_de_ciclo(doe, yoe);
    lema_ciclo(yoe, era);
    lema_mes_de_ciclo(y, doy, mp, m, d);
    if m > 2 {
        lema_anho_siguiente(y);
        lema_tabla_meses(y);
    }
}

/// Un instante de un dia civil.
#[derive(Debug, Clone, Copy, PartialEq, Eq, Structural)]
pub struct Instante {
    pub anho: u64,
    pub mes: u64,
    pub dia: u64,
    pub hora: u64,
    pub minuto: u64,
    pub segundo: u64,
}

impl Instante {
    /// El instante esta `secs` segundos despues del comienzo de 1970.
    pub open spec fn es(self, secs: int) -> bool {
        &&& existe(self.anho as int, self.mes as int, self.dia as int)
        &&& self.hora < 24 && self.minuto < 60 && self.segundo < 60
        &&& secs == (numero_dia(self.anho as int, self.mes as int, self.dia as int) - numero_dia(
            1970,
            1,
            1,
        )) * 86400 + self.hora * 3600 + self.minuto * 60 + self.segundo
    }
}

/// El dia civil que esta `dias` dias despues del 31 de diciembre de 1969.
fn dia_civil(dias: u64) -> (r: (u64, u64, u64))
    requires
        dias <= 0xffff_ffff_ffff,
    ensures
        existe(r.0 as int, r.1 as int, r.2 as int),
        numero_dia(r.0 as int, r.1 as int, r.2 as int) == dias + 719162,
{
    let z: u64 = dias + 719467;
    let era: u64 = z / 146097;
    let doe: u64 = z % 146097;
    let yoe: u64 = (doe - doe / 1460 + doe / 36524 - doe / 146096) / 365;
    proof {
        lema_anho_de_ciclo(doe as int, yoe as int);
    }
    let doy: u64 = doe - (365 * yoe + yoe / 4 - yoe / 100);
    let mp: u64 = (5 * doy + 2) / 153;
    proof {
        lema_mes_de_ciclo(
            yoe + 1,
            doy as int,
            mp as int,
            if mp < 10 {
                mp + 3
            } else {
                mp - 9
            },
            doy - (153 * mp + 2) / 5 + 1,
        );
    }
    let d: u64 = doy + 1 - (153 * mp + 2) / 5;
    let m: u64 = if mp < 10 {
        mp + 3
    } else {
        mp - 9
    };
    let mut y: u64 = yoe + era * 400;
    if m <= 2 {
        y = y + 1;
    }
    proof {
        lema_civil(
            z as int,
            era as int,
            doe as int,
            yoe as int,
            doy as int,
            mp as int,
            y as int,
            m as int,
            d as int,
        );
    }
    (y, m, d)
}

/// El instante del segundo `resto` del dia que esta `dias` dias despues del 31 de diciembre
/// de 1969.
fn instante_del_dia(dias: u64, resto: u64) -> (r: Instante)
    requires
        dias <= 0xffff_ffff_ffff,
        resto < 86400,
    ensures
        r.es((dias - 1) * 86400 + resto),
{
    let (y, m, d) = dia_civil(dias);
    proof {
        lema_tabla_meses(1970);
        reveal(dias_hasta_anho);
        assert(dias_hasta_anho(1970) == 719162);
    }
    Instante {
        anho: y,
        mes: m,
        dia: d,
        hora: resto / 3600,
        minuto: (resto % 3600) / 60,
        segundo: resto % 60,
    }
}

/// El instante que esta `secs` segundos despues del comienzo de 1970.
pub fn instante(secs: u64) -> (r: Instante)
    ensures
        r.es(secs as int),
{
    instante_del_dia(secs / 86400 + 1, secs % 86400)
}

/// Los segundos de `secs` en la hora de Peru, que va cinco horas detras de UTC
/// todo el ano.
pub open spec fn segundos_peru(secs: int) -> int {
    secs - 18000
}

/// El instante de Peru que esta `secs` segundos despues del comienzo de 1970 en UTC. Las
/// cinco primeras horas caen en 1969.
pub fn instante_peru(secs: u64) -> (r: Instante)
    ensures
        r.es(segundos_peru(secs as int)),
{
    let dias: u64 = secs / 86400;
    let resto: u64 = secs % 86400;
    if resto >= 18000 {
        instante_del_dia(dias + 1, resto - 18000)
    } else {
        instante_del_dia(dias, resto + 68400)
    }
}

/// `dd/mm/aaaa hh:mm:ss`.
pub open spec fn texto_instante(i: Instante) -> Seq<char> {
    texto::decimal_ancho(i.dia as nat, 2) + "/"@ + texto::decimal_ancho(i.mes as nat, 2) + "/"@
        + texto::decimal_ancho(i.anho as nat, 4) + " "@ + texto::decimal_ancho(i.hora as nat, 2)
        + ":"@ + texto::decimal_ancho(i.minuto as nat, 2) + ":"@ + texto::decimal_ancho(
        i.segundo as nat,
        2,
    )
}

/// La hora de Peru de un instante dado en segundos desde 1970.
pub fn fmt_hora_local(secs: u64) -> (r: String)
    ensures
        exists|i: Instante| #[trigger]
            i.es(segundos_peru(secs as int)) && r@ == texto_instante(i),
{
    let i = instante_peru(secs);
    let r = texto::mas(texto::texto_ancho(i.dia, 2), "/");
    let r = texto::mas(texto::mas(r, texto::texto_ancho(i.mes, 2).as_str()), "/");
    let r = texto::mas(texto::mas(r, texto::texto_ancho(i.anho, 4).as_str()), " ");
    let r = texto::mas(texto::mas(r, texto::texto_ancho(i.hora, 2).as_str()), ":");
    let r = texto::mas(texto::mas(r, texto::texto_ancho(i.minuto, 2).as_str()), ":");
    texto::mas(r, texto::texto_ancho(i.segundo, 2).as_str())
}

/// Un instante determina su texto: no hay dos instantes distintos a los mismos
/// segundos.
pub proof fn ley_instante_unico(a: Instante, b: Instante, secs: int)
    requires
        a.es(secs),
        b.es(secs),
    ensures
        a == b,
{
    let na = numero_dia(a.anho as int, a.mes as int, a.dia as int);
    let nb = numero_dia(b.anho as int, b.mes as int, b.dia as int);
    assert(na == nb);
    lema_numero_unico(a.anho as int, a.mes as int, a.dia as int, b.anho as int, b.mes as int, b.dia as int);
}

// ---------------------------------------------------------------------------
// Aritmetica de fechas
// ---------------------------------------------------------------------------

/// `chrono::NaiveDate::from_ymd_opt`: da la fecha si existe en el calendario y
/// su ano esta entre los admitidos, y nada si no.
#[verifier::external_body]
fn fecha_chrono(anho: i32, mes: u32, dia: u32) -> (r: Option<Fecha>)
    ensures
        r == (if (Fecha { anho, mes, dia }).valida() {
            Some(Fecha { anho, mes, dia })
        } else {
            None
        }),
{
    let d = chrono::NaiveDate::from_ymd_opt(anho, mes, dia)?;
    Some(Fecha { anho: d.year(), mes: d.month(), dia: d.day() })
}

/// `chrono::NaiveDate::checked_add_signed` con `n` dias enteros: da la fecha
/// `n` dias despues (antes, si `n` es negativo), y nada si cae fuera de los anos
/// admitidos.
#[verifier::external_body]
fn sumar_dias_chrono(f: Fecha, n: i64) -> (r: Option<Fecha>)
    requires
        f.valida(),
    ensures
        match r {
            Some(g) => g.valida() && g.numero() == f.numero() + n,
            None => f.numero() + n < numero_min() || f.numero() + n > numero_max(),
        },
{
    let d = chrono::NaiveDate::from_ymd_opt(f.anho, f.mes, f.dia)?;
    let g = d.checked_add_signed(chrono::TimeDelta::try_days(n)?)?;
    Some(Fecha { anho: g.year(), mes: g.month(), dia: g.day() })
}

/// `chrono::NaiveDate::signed_duration_since` en dias (`num_days`): los dias que
/// van de `b` a `a`.
#[verifier::external_body]
fn dias_entre_chrono(a: Fecha, b: Fecha) -> (r: i64)
    requires
        a.valida(),
        b.valida(),
    ensures
        r == a.numero() - b.numero(),
{
    let x = chrono::NaiveDate::from_ymd_opt(a.anho, a.mes, a.dia).unwrap_or_default();
    let y = chrono::NaiveDate::from_ymd_opt(b.anho, b.mes, b.dia).unwrap_or_default();
    x.signed_duration_since(y).num_days()
}

/// El ano como lo escribe `%Y`: cuatro cifras del 0 al 9999, y con signo fuera
/// de ahi.
pub open spec fn texto_anho(y: int) -> Seq<char> {
    if 0 <= y <= 9999 {
        texto::decimal_ancho(y as nat, 4)
    } else if y < 0 {
        "-"@ + texto::decimal_ancho((-y) as nat, 4)
    } else {
        "+"@ + texto::decimal_ancho(y as nat, 4)
    }
}

/// `aaaa-mm-dd`.
pub open spec fn texto_iso(f: Fecha) -> Seq<char> {
    texto_anho(f.anho as int) + "-"@ + texto::decimal_ancho(f.mes as nat, 2) + "-"@
        + texto::decimal_ancho(f.dia as nat, 2)
}

/// `dd/mm/aaaa`.
pub open spec fn texto_dma(f: Fecha) -> Seq<char> {
    texto::decimal_ancho(f.dia as nat, 2) + "/"@ + texto::decimal_ancho(f.mes as nat, 2) + "/"@
        + texto_anho(f.anho as int)
}

/// `aaaa-mm`.
pub open spec fn texto_mes(f: Fecha) -> Seq<char> {
    texto_anho(f.anho as int) + "-"@ + texto::decimal_ancho(f.mes as nat, 2)
}

/// `chrono::NaiveDate::format` con uno de los tres patrones que usa la
/// biblioteca: dia y mes con dos cifras, y el ano como lo da `texto_anho`.
#[verifier::external_body]
fn formato_chrono(f: Fecha, patron: &str) -> (r: String)
    requires
        f.valida(),
        patron@ == "%Y-%m-%d"@ || patron@ == "%d/%m/%Y"@ || patron@ == "%Y-%m"@,
    ensures
        patron@ == "%Y-%m-%d"@ ==> r@ == texto_iso(f),
        patron@ == "%d/%m/%Y"@ ==> r@ == texto_dma(f),
        patron@ == "%Y-%m"@ ==> r@ == texto_mes(f),
{
    let d = chrono::NaiveDate::from_ymd_opt(f.anho, f.mes, f.dia).unwrap_or_default();
    d.format(patron).to_string()
}

/// Ano, mes y dia que lee `chrono::NaiveDate::parse_from_str` en `s` con el
/// patron `patron`.
pub uninterp spec fn lectura(s: Seq<char>, patron: Seq<char>) -> Option<(i32, u32, u32)>;

pub open spec fn fecha_leida(s: Seq<char>, patron: Seq<char>) -> Option<Fecha> {
    match lectura(s, patron) {
        Some(t) => Some(Fecha { anho: t.0, mes: t.1, dia: t.2 }),
        None => None,
    }
}

/// `chrono::NaiveDate::parse_from_str`: la fecha que lee es valida. Que textos
/// acepta cada patron no se enuncia: se nombra con `lectura`.
#[verifier::external_body]
pub(crate) fn leer_fecha(s: &str, patron: &str) -> (r: Option<Fecha>)
    ensures
        match r {
            Some(f) => lectura(s@, patron@) == Some((f.anho, f.mes, f.dia)) && f.valida(),
            None => lectura(s@, patron@) is None,
        },
{
    let d = chrono::NaiveDate::parse_from_str(s, patron).ok()?;
    Some(Fecha { anho: d.year(), mes: d.month(), dia: d.day() })
}

/// `a` es anterior a `b`.
pub fn anterior(a: Fecha, b: Fecha) -> (r: bool)
    requires
        a.valida(),
        b.valida(),
    ensures
        r == (a.numero() < b.numero()),
{
    proof {
        lema_orden(a, b);
    }
    a.anho < b.anho || (a.anho == b.anho && (a.mes < b.mes || (a.mes == b.mes && a.dia < b.dia)))
}

/// El 1 de enero de 1970.
pub open spec fn fecha_epoca() -> Fecha {
    Fecha { anho: 1970, mes: 1, dia: 1 }
}

pub fn epoca() -> (r: Fecha)
    ensures
        r == fecha_epoca(),
        r.valida(),
{
    Fecha { anho: 1970, mes: 1, dia: 1 }
}

/// La fecha `n` dias despues de `f`.
pub fn sumar_dias(f: Fecha, n: i64) -> (r: Option<Fecha>)
    requires
        f.valida(),
    ensures
        match r {
            Some(g) => g.valida() && g.numero() == f.numero() + n,
            None => f.numero() + n < numero_min() || f.numero() + n > numero_max(),
        },
{
    sumar_dias_chrono(f, n)
}

/// Los dias que van de `a` a `b`.
pub fn dias_de_a(a: Fecha, b: Fecha) -> (r: i64)
    requires
        a.valida(),
        b.valida(),
    ensures
        r == b.numero() - a.numero(),
{
    dias_entre_chrono(b, a)
}

pub fn fecha_iso(f: Fecha) -> (r: String)
    requires
        f.valida(),
    ensures
        r@ == texto_iso(f),
{
    formato_chrono(f, "%Y-%m-%d")
}

pub fn mes_iso(f: Fecha) -> (r: String)
    requires
        f.valida(),
    ensures
        r@ == texto_mes(f),
{
    formato_chrono(f, "%Y-%m")
}

// ---------------------------------------------------------------------------
// Rangos de captura
// ---------------------------------------------------------------------------

/// Dias que se piden juntos a la intranet, con la etiqueta que los nombra.
#[derive(Debug, Clone)]
pub struct MonthRange {
    pub start: Fecha,
    pub end: Fecha,
    pub label: String,
}

#[verifier::ext_equal]
pub struct RangoVista {
    pub start: Fecha,
    pub end: Fecha,
    pub label: Seq<char>,
}

impl View for MonthRange {
    type V = RangoVista;

    open spec fn view(&self) -> RangoVista {
        RangoVista { start: self.start, end: self.end, label: self.label@ }
    }
}

impl RangoVista {
    pub open spec fn valido(self) -> bool {
        self.start.valida() && self.end.valida()
    }

    /// El dia de numero `n` esta en el rango.
    pub open spec fn tiene(self, n: int) -> bool {
        self.start.numero() <= n <= self.end.numero()
    }
}

pub open spec fn rangos(v: Seq<MonthRange>) -> Seq<RangoVista> {
    v.map_values(|r: MonthRange| r@)
}

/// `aaaa-mm` de un mes, sin rellenar el ano.
pub open spec fn etiqueta_mes(y: int, m: int) -> Seq<char> {
    texto::decimal_signo(y) + "-"@ + texto::decimal_ancho(m as nat, 2)
}

pub open spec fn rango_mes(y: int, m: int) -> RangoVista {
    RangoVista {
        start: Fecha { anho: y as i32, mes: m as u32, dia: 1 },
        end: Fecha { anho: y as i32, mes: m as u32, dia: dias_del_mes(y, m) as u32 },
        label: etiqueta_mes(y, m),
    }
}

pub open spec fn rango_dia(f: Fecha) -> RangoVista {
    RangoVista { start: f, end: f, label: texto_iso(f) }
}

impl MonthRange {
    /// Primer y ultimo dia como los pide la intranet.
    pub fn to_url_params(&self) -> (r: (String, String))
        requires
            self@.valido(),
        ensures
            r.0@ == texto_dma(self.start),
            r.1@ == texto_dma(self.end),
    {
        (formato_chrono(self.start, "%d/%m/%Y"), formato_chrono(self.end, "%d/%m/%Y"))
    }

    pub fn copia(&self) -> (r: MonthRange)
        ensures
            r@ == self@,
    {
        MonthRange { start: self.start, end: self.end, label: self.label.clone() }
    }
}

pub fn generate_day_range(date: Fecha) -> (r: MonthRange)
    requires
        date.valida(),
    ensures
        r@ == rango_dia(date),
{
    MonthRange { start: date, end: date, label: fecha_iso(date) }
}

/// Ultimo dia de un mes: el anterior al primero del mes siguiente.
fn fin_de_mes(y: i32, m: u32) -> (r: Fecha)
    requires
        ANHO_MIN <= y,
        1 <= m <= 12,
        y < ANHO_MAX || (y == ANHO_MAX && m < 12),
    ensures
        r == (Fecha { anho: y, mes: m, dia: dias_del_mes(y as int, m as int) as u32 }),
        r.valida(),
{
    let (ey, em): (i32, u32) = if m == 12 {
        (y + 1, 1)
    } else {
        (y, m + 1)
    };
    let primero = fecha_chrono(ey, em, 1).unwrap();
    proof {
        let fin = Fecha { anho: y, mes: m, dia: dias_del_mes(y as int, m as int) as u32 };
        lema_tabla_meses(y as int);
        lema_tabla_meses(ey as int);
        lema_anho_siguiente(y as int);
        assert(fin.valida());
        assert(fin.numero() == primero.numero() - 1);
        lema_numero_en_rango(fin);
        assert forall|g: Fecha| g.valida() && #[trigger] g.numero() == fin.numero() implies g
            == fin by {
            lema_orden(g, fin);
        }
    }
    sumar_dias_chrono(primero, -1).unwrap()
}

fn mes_entero(y: i32, m: u32) -> (r: MonthRange)
    requires
        ANHO_MIN <= y,
        1 <= m <= 12,
        y < ANHO_MAX || (y == ANHO_MAX && m < 12),
    ensures
        r@ == rango_mes(y as int, m as int),
        r@.valido(),
{
    let start = fecha_chrono(y, m, 1).unwrap();
    let end = fin_de_mes(y, m);
    let label = texto::mas(
        texto::mas(texto::texto_i64(y as i64), "-"),
        texto::texto_ancho(m as u64, 2).as_str(),
    );
    MonthRange { start, end, label }
}

/// Primer dia con datos en la intranet.
pub open spec fn primera_fecha() -> Fecha {
    Fecha { anho: 2020, mes: 1, dia: 1 }
}

pub fn min_available_date() -> (r: Fecha)
    ensures
        r == primera_fecha(),
        r.valida(),
{
    Fecha { anho: 2020, mes: 1, dia: 1 }
}

/// El mes que esta `k` meses antes del de `hoy`.
pub open spec fn rango_atras(hoy: Fecha, k: int) -> RangoVista {
    let idx = hoy.anho * 12 + hoy.mes - 1 - k;
    rango_mes(idx / 12, idx % 12 + 1)
}

/// El rango no empieza antes del primer dia con datos.
pub open spec fn con_datos(r: RangoVista) -> bool {
    r.start.numero() >= primera_fecha().numero()
}

/// De los `n` meses anteriores al de `hoy`, del mas reciente al mas antiguo, los que no
/// empiezan antes del primer dia con datos.
pub open spec fn meses_atras(hoy: Fecha, n: nat) -> Seq<RangoVista>
    decreases n,
{
    if n == 0 {
        seq![]
    } else {
        let previos = meses_atras(hoy, (n - 1) as nat);
        let r = rango_atras(hoy, n as int);
        if con_datos(r) {
            previos.push(r)
        } else {
            previos
        }
    }
}

fn mes_atras(hoy: Fecha, k: u32) -> (r: MonthRange)
    requires
        hoy.valida(),
        1 <= k <= hoy.mes + 11,
        k >= hoy.mes ==> hoy.anho > ANHO_MIN,
    ensures
        r@ == rango_atras(hoy, k as int),
        r@.valido(),
{
    let (y, m): (i32, u32) = if hoy.mes > k {
        (hoy.anho, hoy.mes - k)
    } else {
        (hoy.anho - 1, hoy.mes + 12 - k)
    };
    let ghost idx = hoy.anho * 12 + hoy.mes - 1 - k;
    assert(idx / 12 == y && idx % 12 + 1 == m);
    mes_entero(y, m)
}

/// Los `count` meses anteriores al de `hoy`, del mas reciente al mas antiguo. Los que
/// empiezan antes del primer dia con datos se saltan.
pub fn generate_month_ranges(count: u32, hoy: Fecha) -> (r: Vec<MonthRange>)
    requires
        hoy.valida(),
        count <= hoy.mes + 11,
        count >= hoy.mes ==> hoy.anho > ANHO_MIN,
    ensures
        rangos(r@) == meses_atras(hoy, count as nat),
{
    let minima = min_available_date();
    let mut r: Vec<MonthRange> = Vec::new();
    let mut i: u32 = 0;
    assert(rangos(r@) =~= Seq::<RangoVista>::empty());
    while i < count
        invariant
            i <= count <= hoy.mes + 11,
            hoy.valida(),
            minima == primera_fecha(),
            minima.valida(),
            count >= hoy.mes ==> hoy.anho > ANHO_MIN,
            rangos(r@) == meses_atras(hoy, i as nat),
        decreases count - i,
    {
        i = i + 1;
        let entero = mes_atras(hoy, i);
        let ghost antes = r@;
        let ghost vista = entero@;
        if !anterior(entero.start, minima) {
            r.push(entero);
            assert(rangos(r@) =~= rangos(antes).push(vista));
        }
    }
    r
}

/// Ningun mes empieza antes del primer dia con datos, y no falta ninguno de los demas.
pub proof fn ley_meses_con_datos(hoy: Fecha, n: nat)
    ensures
        forall|i: int|
            0 <= i < meses_atras(hoy, n).len() ==> con_datos(#[trigger] meses_atras(hoy, n)[i]),
        forall|k: int|
            1 <= k <= n && con_datos(#[trigger] rango_atras(hoy, k)) ==> meses_atras(
                hoy,
                n,
            ).contains(rango_atras(hoy, k)),
    decreases n,
{
    if n > 0 {
        ley_meses_con_datos(hoy, (n - 1) as nat);
        let previos = meses_atras(hoy, (n - 1) as nat);
        let todos = meses_atras(hoy, n);
        assert forall|k: int|
            1 <= k <= n && con_datos(#[trigger] rango_atras(hoy, k)) implies todos.contains(
            rango_atras(hoy, k),
        ) by {
            if k < n {
                assert(previos.contains(rango_atras(hoy, k)));
                let i = choose|i: int| 0 <= i < previos.len() && previos[i] == rango_atras(hoy, k);
                assert(todos[i] == rango_atras(hoy, k));
            } else {
                assert(todos[previos.len() as int] == rango_atras(hoy, k));
            }
        }
    }
}

/// Mes en que termina la lista que va de `sy`-`sm` a `ey`-`em`. Si los dos estan
/// en el mismo ano y en orden inverso, la lista llega a diciembre.
pub open spec fn mes_final(sy: int, sm: int, ey: int, em: int) -> int {
    if sy == ey && sm > em {
        12
    } else {
        em
    }
}

/// El mes de indice `idx` (doce por ano), acortado a `e_d` si es `ey`-`em`.
pub open spec fn mes_acotado(idx: int, ey: int, em: int, e_d: Fecha) -> RangoVista {
    let r = rango_mes(idx / 12, idx % 12 + 1);
    if idx == ey * 12 + em - 1 && r.end.numero() > e_d.numero() {
        RangoVista { start: r.start, end: e_d, label: r.label }
    } else {
        r
    }
}

/// Los meses de `sy`-`sm` a `ey`-`em`, el ultimo hasta `e_d`.
pub open spec fn meses_hasta(sy: int, sm: int, ey: int, em: int, e_d: Fecha) -> Seq<RangoVista> {
    Seq::new(
        (ey * 12 + mes_final(sy, sm, ey, em) - (sy * 12 + sm) + 1) as nat,
        |i: int| mes_acotado(sy * 12 + sm - 1 + i, ey, em, e_d),
    )
}

pub fn gen_month_range(sy: i32, sm: u32, ey: i32, em: u32, e_d: Fecha) -> (out: Vec<MonthRange>)
    requires
        1 <= sm <= 12,
        1 <= em <= 12,
        ANHO_MIN <= sy <= ey <= ANHO_MAX,
        ey == ANHO_MAX ==> mes_final(sy as int, sm as int, ey as int, em as int) < 12,
        e_d.valida(),
    ensures
        rangos(out@) == meses_hasta(sy as int, sm as int, ey as int, em as int, e_d),
{
    let mut out: Vec<MonthRange> = Vec::new();
    let mut y: i32 = sy;
    let mut m: u32 = sm;
    let ghost todos = meses_hasta(sy as int, sm as int, ey as int, em as int, e_d);
    let ghost fin = mes_final(sy as int, sm as int, ey as int, em as int);
    let mut listo: bool = false;
    while !listo
        invariant
            1 <= sm <= 12,
            1 <= em <= 12,
            ANHO_MIN <= sy <= y <= ey <= ANHO_MAX,
            1 <= m <= 12,
            fin == mes_final(sy as int, sm as int, ey as int, em as int),
            todos == meses_hasta(sy as int, sm as int, ey as int, em as int, e_d),
            ey == ANHO_MAX ==> fin < 12,
            y == ey ==> m <= fin,
            e_d.valida(),
            !listo ==> out@.len() == y * 12 + m - (sy * 12 + sm),
            listo ==> out@.len() == todos.len(),
            out@.len() <= todos.len(),
            forall|k: int| 0 <= k < out@.len() ==> #[trigger] out@[k]@ == todos[k],
        decreases todos.len() - out@.len(), (if listo { 0int } else { 1 }),
    {
        let mut rango = mes_entero(y, m);
        let ghost idx = y * 12 + m - 1;
        assert(idx / 12 == y && idx % 12 + 1 == m);
        assert(todos[out@.len() as int] == mes_acotado(idx as int, ey as int, em as int, e_d));
        if y == ey && m == em && anterior(e_d, rango.end) {
            rango.end = e_d;
        }
        out.push(rango);
        if m == 12 {
            if y == ey {
                listo = true;
            } else {
                y = y + 1;
                m = 1;
            }
        } else if y == ey && m == em {
            listo = true;
        } else {
            m = m + 1;
        }
    }
    assert(rangos(out@) =~= todos);
    out
}

/// Dias del primero de `partes` trozos casi iguales de `dias` dias.
pub open spec fn trozo(dias: int, partes: int) -> int {
    (dias + partes - 1) / partes
}

proof fn lema_trozo(dias: int, partes: int)
    requires
        dias >= 1,
        partes >= 1,
    ensures
        1 <= trozo(dias, partes) <= dias,
        partes == 1 ==> trozo(dias, partes) == dias,
{
    assert(1 <= (dias + partes - 1) / partes <= dias) by (nonlinear_arith)
        requires
            dias >= 1,
            partes >= 1,
    ;
    if partes == 1 {
        assert(trozo(dias, 1) == dias);
    }
}

/// Numero del primer dia del trozo `k`, dados los anteriores.
pub open spec fn inicio_trozo(m: RangoVista, out: Seq<RangoVista>, k: int) -> int {
    if k == 0 {
        m.start.numero()
    } else {
        out[k - 1].end.numero() + 1
    }
}

/// El trozo `k` de `m`: empieza donde acaba el anterior y toma su parte de los
/// dias que quedan.
pub open spec fn es_trozo(m: RangoVista, parts: int, out: Seq<RangoVista>, k: int) -> bool {
    let ini = inicio_trozo(m, out, k);
    &&& out[k].valido()
    &&& out[k].start.numero() == ini <= m.end.numero()
    &&& out[k].end.numero() == ini + trozo(m.end.numero() - ini + 1, parts - k) - 1
    &&& out[k].label == m.label + "-p"@ + texto::decimal(parts as nat) + "_"@ + texto::decimal(
        (k + 1) as nat,
    )
}

/// `out` parte `m` en a lo sumo `parts` trozos seguidos y casi iguales.
pub open spec fn es_division(m: RangoVista, parts: int, out: Seq<RangoVista>) -> bool {
    &&& out.len() <= parts
    &&& forall|k: int| 0 <= k < out.len() ==> #[trigger] es_trozo(m, parts, out, k)
    &&& out.len() < parts ==> inicio_trozo(m, out, out.len() as int) > m.end.numero()
}

/// Trozos en que queda un rango de `dias` dias al pedir `partes`.
pub open spec fn numero_trozos(dias: int, partes: int) -> int {
    if dias <= 0 {
        0
    } else if dias < partes {
        dias
    } else {
        partes
    }
}

pub fn split_month_n(m: &MonthRange, parts: usize) -> (r: Vec<MonthRange>)
    requires
        m@.valido(),
        m.end.numero() < numero_max(),
        parts + m.end.numero() - m.start.numero() <= i64::MAX,
    ensures
        es_division(m@, parts as int, rangos(r@)),
        r@.len() == numero_trozos(m.end.numero() - m.start.numero() + 1, parts as int),
{
    let mut r: Vec<MonthRange> = Vec::new();
    let mut cur = m.start;
    let mut i: usize = 0;
    while i < parts && !anterior(m.end, cur)
        invariant
            0 <= i <= parts,
            m@.valido(),
            cur.valida(),
            m.end.numero() < numero_max(),
            parts + m.end.numero() - m.start.numero() <= i64::MAX,
            cur.numero() >= m.start.numero(),
            r@.len() == i,
            m.start.numero() > m.end.numero() ==> i == 0,
            cur.numero() == inicio_trozo(m@, rangos(r@), i as int),
            forall|k: int| 0 <= k < i ==> #[trigger] es_trozo(m@, parts as int, rangos(r@), k),
        decreases parts - i,
    {
        let remaining: u64 = (parts - i) as u64;
        let dias: u64 = (dias_entre_chrono(m.end, cur) + 1) as u64;
        let chunk: u64 = (dias + remaining - 1) / remaining;
        proof {
            lema_trozo(dias as int, remaining as int);
            lema_numero_en_rango(m.start);
            lema_numero_en_rango(m.end);
            lema_numero_en_rango(cur);
        }
        let end = sumar_dias_chrono(cur, (chunk - 1) as i64).unwrap();
        let label = texto::mas(
            texto::mas(
                texto::mas(
                    texto::mas(m.label.clone(), "-p"),
                    texto::texto_usize(parts).as_str(),
                ),
                "_",
            ),
            texto::texto_usize(i + 1).as_str(),
        );
        let ghost antes = rangos(r@);
        r.push(MonthRange { start: cur, end, label });
        let ghost ahora = rangos(r@);
        proof {
            assert(ahora.take(i as int) =~= antes);
            assert forall|k: int| 0 <= k < i implies #[trigger] es_trozo(
                m@,
                parts as int,
                ahora,
                k,
            ) by {
                assert(es_trozo(m@, parts as int, antes, k));
            }
            assert(inicio_trozo(m@, ahora, i as int) == cur.numero());
            assert(es_trozo(m@, parts as int, ahora, i as int));
        }
        cur = sumar_dias_chrono(end, 1).unwrap();
        i = i + 1;
    }
    proof {
        if m.start.numero() <= m.end.numero() && parts >= 1 {
            ley_numero_trozos(m@, parts as int, rangos(r@));
        }
    }
    r
}

/// Los trozos de un rango van en orden, no se tocan y acaban en su ultimo dia:
/// cada dia del rango esta en un trozo y solo en uno.
pub proof fn ley_division_cubre(m: RangoVista, parts: int, out: Seq<RangoVista>)
    requires
        es_division(m, parts, out),
        m.start.numero() <= m.end.numero(),
        parts >= 1,
    ensures
        out.len() >= 1,
        out.last().end.numero() == m.end.numero(),
        forall|i: int, j: int|
            0 <= i < j < out.len() ==> (#[trigger] out[i]).end.numero() < (
            #[trigger] out[j]).start.numero(),
        forall|n: int| m.tiene(n) <==> exists|k: int| 0 <= k < out.len() && (#[trigger] out[k]).tiene(n),
{
    assert(out.len() >= 1) by {
        if out.len() == 0 {
            assert(inicio_trozo(m, out, 0) > m.end.numero());
        }
    }
    lema_trozos(m, parts, out, out.len() as int);
    let u = out.len() - 1;
    assert(es_trozo(m, parts, out, u));
    lema_trozo(m.end.numero() - inicio_trozo(m, out, u) + 1, parts - u);
    assert forall|n: int| m.tiene(n) implies exists|k: int|
        0 <= k < out.len() && (#[trigger] out[k]).tiene(n) by {
        lema_trozo_de(m, parts, out, n, out.len() as int);
    }
    assert forall|n: int| (exists|k: int| 0 <= k < out.len() && (#[trigger] out[k]).tiene(n)) implies m.tiene(n) by {
        let k = choose|k: int| 0 <= k < out.len() && (#[trigger] out[k]).tiene(n);
        assert(es_trozo(m, parts, out, k));
        lema_trozo(m.end.numero() - inicio_trozo(m, out, k) + 1, parts - k);
        if k > 0 {
            assert(out[0].end.numero() < out[k].start.numero());
            assert(es_trozo(m, parts, out, 0));
            lema_trozo(m.end.numero() - inicio_trozo(m, out, 0) + 1, parts);
        }
    }
}

proof fn lema_trozos(m: RangoVista, parts: int, out: Seq<RangoVista>, n: int)
    requires
        es_division(m, parts, out),
        0 <= n <= out.len(),
    ensures
        forall|i: int, j: int|
            0 <= i < j < n ==> (#[trigger] out[i]).end.numero() < (
            #[trigger] out[j]).start.numero(),
        forall|i: int| 0 <= i < n ==> (#[trigger] out[i]).start.numero() <= out[i].end.numero() <= m.end.numero(),
    decreases n,
{
    if n > 0 {
        lema_trozos(m, parts, out, n - 1);
        assert(es_trozo(m, parts, out, n - 1));
        lema_trozo(m.end.numero() - inicio_trozo(m, out, n - 1) + 1, parts - (n - 1));
        if n > 1 {
            assert(out[n - 2].end.numero() + 1 == out[n - 1].start.numero());
            assert forall|i: int| 0 <= i < n - 1 implies (#[trigger] out[i]).end.numero() < out[n
                - 1].start.numero() by {
                if i < n - 2 {
                    assert(out[i].end.numero() < out[n - 2].start.numero());
                }
            }
        }
    }
}

proof fn lema_trozo_de(m: RangoVista, parts: int, out: Seq<RangoVista>, n: int, hasta: int)
    requires
        es_division(m, parts, out),
        1 <= hasta <= out.len(),
        m.start.numero() <= n <= out[hasta - 1].end.numero(),
    ensures
        exists|k: int| 0 <= k < out.len() && (#[trigger] out[k]).tiene(n),
    decreases hasta,
{
    assert(es_trozo(m, parts, out, hasta - 1));
    if out[hasta - 1].tiene(n) {
    } else {
        assert(hasta > 1);
        lema_trozo_de(m, parts, out, n, hasta - 1);
    }
}

proof fn lema_trozo_justo(dias: int, partes: int)
    requires
        dias >= 1,
        partes >= 1,
    ensures
        dias >= partes ==> dias - trozo(dias, partes) >= partes - 1,
        dias <= partes ==> trozo(dias, partes) == 1,
{
    if dias >= partes {
        assert(dias - (dias + partes - 1) / partes >= partes - 1) by (nonlinear_arith)
            requires
                dias >= partes,
                partes >= 1,
        ;
    } else {
        assert((dias + partes - 1) / partes == 1) by (nonlinear_arith)
            requires
                1 <= dias < partes,
        ;
    }
    if dias == partes {
        assert((dias + partes - 1) / partes == 1) by (nonlinear_arith)
            requires
                dias == partes,
                partes >= 1,
        ;
    }
}

proof fn lema_dias_restantes(m: RangoVista, parts: int, out: Seq<RangoVista>, k: int)
    requires
        es_division(m, parts, out),
        m.start.numero() <= m.end.numero(),
        parts >= 1,
        0 <= k <= out.len(),
    ensures
        ({
            let d = m.end.numero() - m.start.numero() + 1;
            let resto = m.end.numero() - inicio_trozo(m, out, k) + 1;
            &&& d >= parts ==> resto >= parts - k
            &&& d < parts ==> resto == d - k
        }),
    decreases k,
{
    if k > 0 {
        lema_dias_restantes(m, parts, out, k - 1);
        assert(es_trozo(m, parts, out, k - 1));
        lema_trozo_justo(m.end.numero() - inicio_trozo(m, out, k - 1) + 1, parts - (k - 1));
    }
}

/// Un rango se parte en tantos trozos como se piden, o en uno por dia si no tiene
/// tantos dias.
pub proof fn ley_numero_trozos(m: RangoVista, parts: int, out: Seq<RangoVista>)
    requires
        es_division(m, parts, out),
        m.start.numero() <= m.end.numero(),
        parts >= 1,
    ensures
        out.len() == numero_trozos(m.end.numero() - m.start.numero() + 1, parts),
{
    let d = m.end.numero() - m.start.numero() + 1;
    lema_dias_restantes(m, parts, out, out.len() as int);
    if d < parts {
        if out.len() > 0 {
            lema_dias_restantes(m, parts, out, out.len() - 1);
            assert(es_trozo(m, parts, out, out.len() - 1));
        }
    }
}

/// Lo que queda por partir es `q` dias por trozo y, a lo sumo, uno mas para cada uno.
proof fn lema_resto_parejo(m: RangoVista, parts: int, out: Seq<RangoVista>, k: int, q: int) -> (e:
    int)
    requires
        es_division(m, parts, out),
        m.start.numero() <= m.end.numero(),
        parts >= 1,
        0 <= k < out.len(),
        q == (m.end.numero() - m.start.numero() + 1) / parts,
    ensures
        0 <= e <= parts - k,
        m.end.numero() - inicio_trozo(m, out, k) + 1 == q * (parts - k) + e,
    decreases k,
{
    let d = m.end.numero() - m.start.numero() + 1;
    if k == 0 {
        let e = d % parts;
        assert(d == q * parts + e && 0 <= e < parts) by (nonlinear_arith)
            requires
                parts >= 1,
                q == d / parts,
                e == d % parts,
        ;
        e
    } else {
        let e = lema_resto_parejo(m, parts, out, k - 1, q);
        assert(es_trozo(m, parts, out, k - 1));
        let p = parts - (k - 1);
        lema_parte_pareja(q, p, e);
        assert(q * (parts - k) == q * p - q) by (nonlinear_arith)
            requires
                p == parts - (k - 1),
        ;
        if e == 0 {
            0
        } else {
            e - 1
        }
    }
}

proof fn lema_parte_pareja(q: int, p: int, e: int)
    requires
        p >= 1,
        0 <= e <= p,
    ensures
        trozo(q * p + e, p) == (if e == 0 {
            q
        } else {
            q + 1
        }),
{
    let c = if e == 0 {
        q
    } else {
        q + 1
    };
    assert((q * p + e + p - 1) / p == c) by (nonlinear_arith)
        requires
            p >= 1,
            0 <= e <= p,
            c == (if e == 0 {
                q
            } else {
                q + 1
            }),
    ;
}

/// Los trozos de un rango son casi iguales: cada uno tiene los dias del rango entre las
/// partes, o uno mas.
pub proof fn ley_trozos_parejos(m: RangoVista, parts: int, out: Seq<RangoVista>, k: int)
    requires
        es_division(m, parts, out),
        m.start.numero() <= m.end.numero(),
        parts >= 1,
        0 <= k < out.len(),
    ensures
        ({
            let q = (m.end.numero() - m.start.numero() + 1) / parts;
            q <= out[k].end.numero() - out[k].start.numero() + 1 <= q + 1
        }),
{
    let q = (m.end.numero() - m.start.numero() + 1) / parts;
    let e = lema_resto_parejo(m, parts, out, k, q);
    assert(es_trozo(m, parts, out, k));
    lema_parte_pareja(q, parts - k, e);
}

proof fn lema_mes_contiguo(idx: int)
    requires
        ANHO_MIN <= idx / 12,
        (idx + 1) / 12 <= ANHO_MAX,
    ensures
        rango_mes(idx / 12, idx % 12 + 1).end.numero() + 1 == rango_mes(
            (idx + 1) / 12,
            (idx + 1) % 12 + 1,
        ).start.numero(),
{
    let y = idx / 12;
    let m = idx % 12 + 1;
    lema_tabla_meses(y);
    if m == 12 {
        assert((idx + 1) / 12 == y + 1 && (idx + 1) % 12 == 0);
        lema_tabla_meses(y + 1);
        lema_anho_siguiente(y);
    } else {
        assert((idx + 1) / 12 == y && (idx + 1) % 12 + 1 == m + 1);
    }
}

proof fn lema_indice_mes(y: int, m: int)
    requires
        1 <= m <= 12,
    ensures
        (y * 12 + m - 1) / 12 == y,
        (y * 12 + m - 1) % 12 + 1 == m,
{
}

proof fn lema_cotas_indice(idx: int, sy: int, ey: int)
    requires
        sy * 12 <= idx < ey * 12 + 11,
    ensures
        sy <= idx / 12,
        (idx + 1) / 12 <= ey,
{
}

/// El ultimo mes acaba en `e_d` si `e_d` es de ese mes.
proof fn lema_fin_acotado(ey: int, em: int, e_d: Fecha)
    requires
        1 <= em <= 12,
        ANHO_MIN <= ey <= ANHO_MAX,
        e_d.valida(),
        e_d.anho == ey && e_d.mes == em,
    ensures
        mes_acotado(ey * 12 + em - 1, ey, em, e_d).end == e_d,
{
    lema_indice_mes(ey, em);
    let fin = rango_mes(ey, em).end;
    assert(fin.numero() == e_d.numero() + dias_del_mes(ey, em) - e_d.dia);
    if fin.numero() <= e_d.numero() {
        assert(fin.dia == e_d.dia);
    }
}

/// Los meses de una lista son seguidos: cada uno empieza al dia siguiente de
/// acabar el anterior, el primero el dia uno, y el ultimo no pasa de `e_d`.
pub proof fn ley_meses_seguidos(sy: int, sm: int, ey: int, em: int, e_d: Fecha)
    requires
        1 <= sm <= 12,
        1 <= em <= 12,
        ANHO_MIN <= sy <= ey <= ANHO_MAX,
        sy == ey ==> sm <= em,
        e_d.valida(),
        e_d.anho == ey && e_d.mes == em,
    ensures
        meses_hasta(sy, sm, ey, em, e_d).len() == (ey - sy) * 12 + em - sm + 1,
        meses_hasta(sy, sm, ey, em, e_d)[0].start == (Fecha { anho: sy as i32, mes: sm as u32, dia: 1 }),
        meses_hasta(sy, sm, ey, em, e_d).last().end == e_d,
        forall|i: int|
            0 <= i < meses_hasta(sy, sm, ey, em, e_d).len() - 1 ==> (#[trigger] meses_hasta(
                sy,
                sm,
                ey,
                em,
                e_d,
            )[i]).end.numero() + 1 == meses_hasta(sy, sm, ey, em, e_d)[i + 1].start.numero(),
{
    let v = meses_hasta(sy, sm, ey, em, e_d);
    let ini = sy * 12 + sm - 1;
    let ult = ey * 12 + em - 1;
    lema_indice_mes(sy, sm);
    lema_indice_mes(ey, em);
    assert(v[0] == mes_acotado(ini, ey, em, e_d));
    assert(v.last() == mes_acotado(ult, ey, em, e_d));
    lema_fin_acotado(ey, em, e_d);
    assert forall|i: int| 0 <= i < v.len() - 1 implies (#[trigger] v[i]).end.numero() + 1 == v[i
        + 1].start.numero() by {
        let idx = ini + i;
        assert(v[i] == rango_mes(idx / 12, idx % 12 + 1));
        assert(v[i + 1].start == rango_mes((idx + 1) / 12, (idx + 1) % 12 + 1).start);
        lema_cotas_indice(idx, sy, ey);
        lema_mes_contiguo(idx);
    }
}

/// Entre los meses de una lista estan todos los dias desde el primero hasta `e_d`, y
/// ninguno mas.
pub proof fn ley_meses_cubren(sy: int, sm: int, ey: int, em: int, e_d: Fecha, n: int)
    requires
        1 <= sm <= 12,
        1 <= em <= 12,
        ANHO_MIN <= sy <= ey <= ANHO_MAX,
        sy == ey ==> sm <= em,
        e_d.valida(),
        e_d.anho == ey && e_d.mes == em,
    ensures
        (numero_dia(sy, sm, 1) <= n <= e_d.numero()) <==> exists|k: int|
            0 <= k < meses_hasta(sy, sm, ey, em, e_d).len() && (#[trigger] meses_hasta(
                sy,
                sm,
                ey,
                em,
                e_d,
            )[k]).tiene(n),
{
    let v = meses_hasta(sy, sm, ey, em, e_d);
    ley_meses_seguidos(sy, sm, ey, em, e_d);
    if numero_dia(sy, sm, 1) <= n <= e_d.numero() {
        lema_seguidos_cubren(v, n, v.len() as int);
    }
    assert forall|k: int| 0 <= k < v.len() implies (#[trigger] v[k]).start.numero()
        <= v[k].end.numero() by {
        lema_mes_con_dias(sy * 12 + sm - 1 + k, ey, em, e_d);
    }
    assert forall|k: int| 0 <= k < v.len() && (#[trigger] v[k]).tiene(n) implies numero_dia(
        sy,
        sm,
        1,
    ) <= n <= e_d.numero() by {
        lema_seguidos_orden(v, 0, k);
        lema_seguidos_orden(v, k, v.len() - 1);
    }
}

/// Un mes acaba despues de empezar, tambien si se acorta a un dia suyo.
proof fn lema_mes_con_dias(idx: int, ey: int, em: int, e_d: Fecha)
    requires
        1 <= em <= 12,
        e_d.valida(),
        e_d.anho == ey && e_d.mes == em,
    ensures
        mes_acotado(idx, ey, em, e_d).start.numero() <= mes_acotado(idx, ey, em, e_d).end.numero(),
{
    let y = idx / 12;
    let m = idx % 12 + 1;
    let r = rango_mes(y, m);
    assert(r.end.dia >= 28);
    assert(r.start.numero() <= r.end.numero());
    if idx == ey * 12 + em - 1 {
        lema_indice_mes(ey, em);
        assert(r.start.anho == e_d.anho && r.start.mes == e_d.mes);
        assert(r.start.numero() <= e_d.numero());
    }
}

/// De unos rangos seguidos, los de delante empiezan y acaban antes.
proof fn lema_seguidos_orden(v: Seq<RangoVista>, a: int, b: int)
    requires
        0 <= a <= b < v.len(),
        forall|i: int|
            0 <= i < v.len() - 1 ==> (#[trigger] v[i]).end.numero() + 1 == v[i
                + 1].start.numero(),
        forall|i: int| 0 <= i < v.len() ==> (#[trigger] v[i]).start.numero() <= v[i].end.numero(),
    ensures
        v[a].start.numero() <= v[b].start.numero(),
        v[a].end.numero() <= v[b].end.numero(),
    decreases b - a,
{
    if a < b {
        lema_seguidos_orden(v, a, b - 1);
        assert(v[b - 1].end.numero() + 1 == v[b - 1 + 1].start.numero());
    }
}

/// Unos rangos seguidos cubren hasta el comienzo del ultimo.
proof fn lema_seguidos_cubren(v: Seq<RangoVista>, n: int, hasta: int)
    requires
        1 <= hasta <= v.len(),
        forall|i: int|
            0 <= i < v.len() - 1 ==> (#[trigger] v[i]).end.numero() + 1 == v[i
                + 1].start.numero(),
        v[0].start.numero() <= n <= v[hasta - 1].end.numero(),
    ensures
        exists|k: int| 0 <= k < v.len() && (#[trigger] v[k]).tiene(n),
    decreases hasta,
{
    if n >= v[hasta - 1].start.numero() {
        assert(v[hasta - 1].tiene(n));
    } else {
        assert(hasta >= 2);
        assert(v[hasta - 2].end.numero() + 1 == v[hasta - 2 + 1].start.numero());
        lema_seguidos_cubren(v, n, hasta - 1);
    }
}

/// Dias de un rango; ninguno si acaba antes de empezar.
pub open spec fn dias_rango(m: RangoVista) -> int {
    if m.start.numero() <= m.end.numero() {
        m.end.numero() - m.start.numero() + 1
    } else {
        0
    }
}

/// Los rangos de un dia que hay en `v` son los dias de numero `desde` en adelante.
pub open spec fn son_dias(v: Seq<RangoVista>, desde: int) -> bool {
    forall|i: int|
        0 <= i < v.len() ==> (#[trigger] v[i]).start.valida() && v[i] == rango_dia(v[i].start)
            && v[i].start.numero() == desde + i
}

/// Un rango de un dia por cada dia entre dos fechas, las dos incluidas.
pub fn dias_entre(inicio: Fecha, fin: Fecha) -> (r: Vec<MonthRange>)
    requires
        inicio.valida(),
        fin.valida(),
        fin.numero() < numero_max(),
    ensures
        r@.len() == (if inicio.numero() <= fin.numero() {
            fin.numero() - inicio.numero() + 1
        } else {
            0
        }),
        son_dias(rangos(r@), inicio.numero()),
{
    let mut r: Vec<MonthRange> = Vec::new();
    let mut d = inicio;
    while !anterior(fin, d)
        invariant
            inicio.valida(),
            fin.valida(),
            d.valida(),
            fin.numero() < numero_max(),
            d.numero() == inicio.numero() + r@.len(),
            r@.len() > 0 ==> d.numero() <= fin.numero() + 1,
            son_dias(rangos(r@), inicio.numero()),
        decreases fin.numero() + 1 - d.numero(),
    {
        let ghost antes = rangos(r@);
        r.push(generate_day_range(d));
        proof {
            lema_numero_en_rango(d);
            assert forall|i: int| 0 <= i < rangos(r@).len() implies (#[trigger] rangos(
                r@,
            )[i]).start.valida() && rangos(r@)[i] == rango_dia(rangos(r@)[i].start) && rangos(
                r@,
            )[i].start.numero() == inicio.numero() + i by {
                if i < antes.len() {
                    assert(rangos(r@)[i] == antes[i]);
                }
            }
        }
        d = sumar_dias_chrono(d, 1).unwrap();
    }
    r
}

/// Una fecha de los anos 0 al 9999 se escribe con cuatro cifras de ano, dos de mes y dos de
/// dia, que valen lo que dice la fecha, separadas por guiones, o por barras y al reves.
pub proof fn ley_largo_de_fecha(f: Fecha)
    requires
        f.valida(),
        0 <= f.anho <= 9999,
    ensures
        ({
            let y = texto_anho(f.anho as int);
            let m = texto::decimal_ancho(f.mes as nat, 2);
            let d = texto::decimal_ancho(f.dia as nat, 2);
            &&& y.len() == 4 && m.len() == 2 && d.len() == 2
            &&& texto::son_cifras(y) && texto::son_cifras(m) && texto::son_cifras(d)
            &&& texto::valor(y) == f.anho && texto::valor(m) == f.mes && texto::valor(d) == f.dia
            &&& texto_iso(f) == y + seq!['-'] + m + seq!['-'] + d
            &&& texto_mes(f) == y + seq!['-'] + m
            &&& texto_dma(f) == d + seq!['/'] + m + seq!['/'] + y
        }),
{
    reveal_strlit("-");
    reveal_strlit("/");
    assert("-"@ =~= seq!['-']);
    assert("/"@ =~= seq!['/']);
    lema_ancho_justo(f.anho as nat, 4);
    assert(dias_del_mes(f.anho as int, f.mes as int) <= 31);
    lema_ancho_justo(f.mes as nat, 2);
    lema_ancho_justo(f.dia as nat, 2);
}

/// Un numero que cabe en `w` cifras se escribe con `w` cifras que valen lo mismo.
pub proof fn lema_ancho_justo(n: nat, w: int)
    requires
        (w == 2 && n <= 99) || (w == 4 && n <= 9999),
    ensures
        texto::decimal_ancho(n, w).len() == w,
        texto::son_cifras(texto::decimal_ancho(n, w)),
        texto::valor(texto::decimal_ancho(n, w)) == n,
{
    texto::ley_decimal(n, 9999);
    reveal_with_fuel(texto::decimal, 5);
    let d = texto::decimal(n);
    let r = texto::decimal_ancho(n, w);
    assert(d.len() <= w);
    let ceros = Seq::new((w - d.len()) as nat, |i: int| '0');
    assert(r =~= ceros + d);
    lema_ceros_delante(ceros, d);
    assert forall|i: int| 0 <= i < r.len() implies texto::es_cifra(#[trigger] r[i]) by {
        if i >= ceros.len() {
            assert(r[i] == d[i - ceros.len()]);
        }
    }
}

proof fn lema_ceros_delante(ceros: Seq<char>, d: Seq<char>)
    requires
        forall|i: int| 0 <= i < ceros.len() ==> #[trigger] ceros[i] == '0',
    ensures
        texto::valor(ceros + d) == texto::valor(d),
    decreases d.len(), ceros.len(),
{
    let s = ceros + d;
    if d.len() > 0 {
        assert(s.drop_last() =~= ceros + d.drop_last());
        assert(s.last() == d.last());
        lema_ceros_delante(ceros, d.drop_last());
    } else if ceros.len() > 0 {
        assert(s =~= ceros);
        assert(s.last() == '0');
        let c = ceros.drop_last();
        assert forall|i: int| 0 <= i < c.len() implies #[trigger] c[i] == '0' by {
            assert(c[i] == ceros[i]);
        }
        lema_ceros_delante(c, d);
        assert(c + d =~= c);
        assert(d =~= Seq::<char>::empty());
    } else {
        assert(s =~= d);
    }
}

/// Los anos bisiestos son los multiplos de cuatro, salvo los de cien que no lo son de
/// cuatrocientos, y se repiten cada cuatrocientos anos.
pub proof fn ley_bisiesto(y: int)
    ensures
        y % 4 != 0 ==> !bisiesto(y),
        y % 4 == 0 && y % 100 != 0 ==> bisiesto(y),
        y % 100 == 0 && y % 400 != 0 ==> !bisiesto(y),
        y % 400 == 0 ==> bisiesto(y),
        bisiesto(y + 400) <==> bisiesto(y),
{
    reveal(bisiesto);
}

/// Los dias del calendario van seguidos: tras un dia viene el siguiente del mes, tras el ultimo
/// del mes el primero del siguiente y tras el ultimo del ano el primero del otro.
pub proof fn ley_dia_siguiente(y: int, m: int, d: int)
    requires
        1 <= m <= 12,
    ensures
        numero_dia(y, m, d + 1) == numero_dia(y, m, d) + 1,
        m < 12 ==> numero_dia(y, m + 1, 1) == numero_dia(y, m, dias_del_mes(y, m)) + 1,
        numero_dia(y + 1, 1, 1) == numero_dia(y, 12, 31) + 1,
        numero_dia(y + 1, 1, 1) - numero_dia(y, 1, 1) == (if bisiesto(y) {
            366int
        } else {
            365
        }),
        numero_dia(1970, 1, 1) == 719163,
{
    lema_tabla_meses(y);
    lema_anho_siguiente(y);
    lema_tabla_meses(y + 1);
    lema_tabla_meses(1970);
    reveal(dias_hasta_anho);
}

/// Los dias de cada mes.
pub proof fn ley_dias_de_cada_mes(y: int, m: int)
    requires
        1 <= m <= 12,
    ensures
        28 <= dias_del_mes(y, m) <= 31,
        dias_del_mes(y, m) == 31 <==> m == 1 || m == 3 || m == 5 || m == 7 || m == 8 || m == 10 || m
            == 12,
        dias_del_mes(y, m) == 30 <==> m == 4 || m == 6 || m == 9 || m == 11,
        dias_del_mes(y, m) == 29 <==> m == 2 && bisiesto(y),
        dias_del_mes(y, m) == 28 <==> m == 2 && !bisiesto(y),
{
}

/// La hora de Peru va cinco horas por detras.
pub proof fn ley_hora_de_peru(secs: int)
    ensures
        segundos_peru(secs) + 5 * 3600 == secs,
{
}

/// El texto de un instante da el dia, el mes, el ano, la hora, el minuto y el segundo, con ceros
/// delante.
pub proof fn ley_texto_de_instante(i: Instante, secs: int)
    requires
        i.es(secs),
        i.anho <= 9999,
    ensures
        ({
            let d = texto::decimal_ancho(i.dia as nat, 2);
            let m = texto::decimal_ancho(i.mes as nat, 2);
            let y = texto::decimal_ancho(i.anho as nat, 4);
            let h = texto::decimal_ancho(i.hora as nat, 2);
            let n = texto::decimal_ancho(i.minuto as nat, 2);
            let s = texto::decimal_ancho(i.segundo as nat, 2);
            &&& d.len() == 2 && m.len() == 2 && y.len() == 4 && h.len() == 2 && n.len() == 2
                && s.len() == 2
            &&& texto::valor(d) == i.dia && texto::valor(m) == i.mes && texto::valor(y) == i.anho
            &&& texto::valor(h) == i.hora && texto::valor(n) == i.minuto && texto::valor(s)
                == i.segundo
            &&& texto_instante(i) == d + seq!['/'] + m + seq!['/'] + y + seq![' '] + h + seq![':'] + n
                + seq![':'] + s
        }),
{
    reveal_strlit("/");
    reveal_strlit(" ");
    reveal_strlit(":");
    assert("/"@ =~= seq!['/']);
    assert(" "@ =~= seq![' ']);
    assert(":"@ =~= seq![':']);
    assert(dias_del_mes(i.anho as int, i.mes as int) <= 31);
    lema_ancho_justo(i.dia as nat, 2);
    lema_ancho_justo(i.mes as nat, 2);
    lema_ancho_justo(i.anho as nat, 4);
    lema_ancho_justo(i.hora as nat, 2);
    lema_ancho_justo(i.minuto as nat, 2);
    lema_ancho_justo(i.segundo as nat, 2);
}

/// El rango de un mes tiene los dias del mes y ninguno mas, y lleva su ano y su mes por nombre.
pub proof fn ley_rango_de_mes(y: int, m: int, n: int)
    requires
        1 <= m <= 12,
        0 <= y <= ANHO_MAX,
    ensures
        rango_mes(y, m).tiene(n) <==> numero_dia(y, m, 1) <= n < (if m < 12 {
            numero_dia(y, m + 1, 1)
        } else {
            numero_dia(y + 1, 1, 1)
        }),
        rango_mes(y, m).label == etiqueta_mes(y, m),
        etiqueta_mes(y, m) == texto::decimal(y as nat) + seq!['-'] + texto::decimal_ancho(m as nat, 2),
{
    reveal_strlit("-");
    assert("-"@ =~= seq!['-']);
    ley_dia_siguiente(y, m, 1);
    let r = rango_mes(y, m);
    assert(r.start.anho == y && r.start.mes == m && r.end.anho == y && r.end.mes == m);
    assert(r.end.dia == dias_del_mes(y, m));
}

/// El rango de un dia tiene ese dia y ningun otro, y lleva su fecha por nombre.
pub proof fn ley_rango_de_dia(f: Fecha, n: int)
    ensures
        rango_dia(f).tiene(n) <==> n == f.numero(),
        rango_dia(f).label == texto_iso(f),
        dias_rango(rango_dia(f)) == 1,
{
}

/// Los meses hacia atras van seguidos, y el de hace cero es el de hoy.
pub proof fn ley_rangos_hacia_atras(hoy: Fecha, k: int)
    requires
        hoy.valida(),
        0 <= k,
        hoy.anho * 12 + hoy.mes - 2 - k >= 0,
    ensures
        rango_atras(hoy, 0) == rango_mes(hoy.anho as int, hoy.mes as int),
        rango_atras(hoy, k + 1).end.numero() + 1 == rango_atras(hoy, k).start.numero(),
{
    lema_indice_mes(hoy.anho as int, hoy.mes as int);
    let idx = hoy.anho * 12 + hoy.mes - 2 - k;
    lema_cotas_indice(idx, 0, hoy.anho as int);
    lema_mes_contiguo(idx);
}

/// Hacia atras sale el primer mes si tiene datos, y detras los demas.
pub proof fn ley_meses_atras(hoy: Fecha, n: nat)
    ensures
        meses_atras(hoy, 0).len() == 0,
        rango_atras(hoy, n as int + 1).start.numero() >= primera_fecha().numero() ==> meses_atras(
            hoy,
            n + 1,
        ) == meses_atras(hoy, n).push(rango_atras(hoy, n as int + 1)),
        rango_atras(hoy, n as int + 1).start.numero() < primera_fecha().numero() ==> meses_atras(hoy, n + 1)
            == meses_atras(hoy, n),
        primera_fecha() == (Fecha { anho: 2020, mes: 1, dia: 1 }),
{
}

/// El mes en que acaba una serie: el pedido, o diciembre si en el mismo ano va antes que el
/// primero.
pub proof fn ley_mes_final(sy: int, sm: int, ey: int, em: int)
    requires
        1 <= sm <= 12,
        1 <= em <= 12,
        sy <= ey,
    ensures
        ey * 12 + mes_final(sy, sm, ey, em) >= sy * 12 + sm,
        sy < ey || sm <= em ==> mes_final(sy, sm, ey, em) == em,
        sy == ey && sm > em ==> mes_final(sy, sm, ey, em) == 12,
{
}

/// Los dias de un rango son los que tiene; al reves no tiene ninguno.
pub proof fn ley_dias_de_rango(m: RangoVista, n: int)
    ensures
        m.tiene(n) ==> 0 <= n - m.start.numero() < dias_rango(m),
        0 <= n < dias_rango(m) ==> m.tiene(m.start.numero() + n),
        dias_rango(m) >= 0,
{
}

/// Una fecha se lee con su ano, su mes y su dia cada uno en su sitio.
pub proof fn ley_fecha_leida(s: Seq<char>, patron: Seq<char>)
    ensures
        fecha_leida(s, patron) is Some <==> lectura(s, patron) is Some,
        fecha_leida(s, patron) matches Some(f) ==> lectura(s, patron) == Some((f.anho, f.mes, f.dia)),
{
}

/// Los anos se escriben con cuatro cifras al menos, y con su signo fuera de los de cuatro.
pub proof fn ley_texto_de_anho(y: int)
    ensures
        0 <= y <= 9999 ==> texto_anho(y).len() == 4 && texto::valor(texto_anho(y)) == y,
        y < 0 ==> texto_anho(y)[0] == '-' && texto_anho(y).drop_first() == texto::decimal_ancho(
            (-y) as nat,
            4,
        ),
        y > 9999 ==> texto_anho(y)[0] == '+' && texto_anho(y).drop_first() == texto::decimal_ancho(
            y as nat,
            4,
        ),
{
    reveal_strlit("-");
    reveal_strlit("+");
    if 0 <= y <= 9999 {
        lema_ancho_justo(y as nat, 4);
    } else if y < 0 {
        assert(texto_anho(y).drop_first() =~= texto::decimal_ancho((-y) as nat, 4));
    } else {
        assert(texto_anho(y).drop_first() =~= texto::decimal_ancho(y as nat, 4));
    }
}

/// Cada trozo de un mes lleva el nombre del mes, en cuantos se parte y cual es, contando desde
/// uno.
pub proof fn ley_nombre_de_trozo(m: RangoVista, parts: int, out: Seq<RangoVista>, k: int)
    requires
        es_division(m, parts, out),
        0 <= k < out.len(),
    ensures
        out[k].label == m.label + "-p"@ + texto::decimal(parts as nat) + "_"@ + texto::decimal(
            (k + 1) as nat,
        ),
{
    assert(es_trozo(m, parts, out, k));
}

} // verus!
