//! Como se captura un elemento de un lote y como avanza el lote.

use crate::captura;
use crate::capture_state::CapturePhase;
use crate::config;
use crate::fecha;
use crate::fecha::MonthRange;
use crate::texto;
use vstd::prelude::*;

verus! {

// ---------------------------------------------------------------------------
// Un elemento
// ---------------------------------------------------------------------------

/// Como acaba un elemento.
#[derive(Debug, Clone, Copy, PartialEq, Eq, Structural)]
pub enum Desenlace {
    /// Se bajo entero.
    Bajado,
    /// Se rehizo a partir de trozos, de dias o de la pagina.
    Recuperado,
    /// El servidor no responde.
    Sistemico,
    Fallido,
}

/// En que esta la captura de un dia suelto.
#[derive(Debug, Clone, Copy, PartialEq, Eq, Structural)]
pub enum PasoDia {
    /// Ver si hay un CSV o un libro de antes.
    Mirar,
    /// Convertir el libro de antes.
    Xls,
    /// Bajar el dia.
    Bajar { intento: u32 },
    /// Bajar el dia por tramos de articulos.
    Partir,
}

/// En que esta la captura de un elemento.
#[derive(Debug, Clone, Copy, PartialEq, Eq, Structural)]
pub enum Item {
    /// Bajar el rango entero.
    Directo { intento: u32 },
    /// Bajar un dia para saber si el servidor responde.
    Sonda { intento: u32 },
    /// Ver si estan los archivos de todos los dias.
    Dailies,
    /// Unir los archivos de todos los dias, que ya estan: no se pide nada a la red.
    UnionDailies,
    /// Bajar un trozo de la division `lista`.
    Trozo { lista: usize, trozo: usize, intento: u32 },
    /// Unir los trozos de la division `lista`.
    UnionTrozos { lista: usize },
    /// Capturar el dia `d`; van `ok` buenos y los ultimos `seguidos` malos.
    Dia { d: usize, ok: usize, seguidos: usize, paso: PasoDia },
    /// Unir los dias que hay.
    UnionDias,
    /// Leer el informe de la pagina.
    Pagina,
    Fin { desenlace: Desenlace },
}

/// Que paso con lo que se pidio.
#[derive(Debug, Clone, Copy, PartialEq, Eq, Structural)]
pub enum Evento {
    /// Salio bien.
    Bueno,
    /// Se bajo algo que no sirve, o lo que se miraba no esta.
    Malo,
    /// No se bajo; `caducado` si fue por tiempo.
    Error { caducado: bool },
    /// Lo que hay de un dia: si su CSV y su libro estan completos.
    Archivos { csv: bool, xls: bool },
}

/// Lo que se hace antes de seguir: esperar, volver a entrar y esperar de nuevo.
#[derive(Debug, Clone, Copy, PartialEq, Eq, Structural)]
pub struct Pausa {
    pub antes: u64,
    pub entrar: bool,
    pub despues: u64,
}

pub open spec fn sin_pausa() -> Pausa {
    Pausa { antes: 0, entrar: false, despues: 0 }
}

pub open spec fn pausa(s: u64) -> Pausa {
    Pausa { antes: s, entrar: false, despues: 0 }
}

/// En cuantas partes se prueba a dividir un elemento. Enero es tan grande que en
/// dos nunca sale.
pub open spec fn divisiones(enero: bool) -> Seq<usize> {
    if enero {
        seq![4, 6, 10]
    } else {
        seq![2, 4, 6, 10]
    }
}

pub fn divisiones_de(enero: bool) -> (r: Vec<usize>)
    ensures
        r@ == divisiones(enero),
{
    let r: Vec<usize> = if enero {
        vec![4, 6, 10]
    } else {
        vec![2, 4, 6, 10]
    };
    assert(r@ =~= divisiones(enero));
    r
}

/// Trozos de la division `lista` de un elemento de `dias` dias.
pub open spec fn trozos(enero: bool, dias: int, lista: int) -> int {
    fecha::numero_trozos(dias, divisiones(enero)[lista] as int)
}

/// Donde se empieza: enero, que nunca se baja entero, por lo que ya haya.
pub open spec fn inicio(enero: bool) -> Item {
    if enero {
        Item::Dailies
    } else {
        Item::Directo { intento: 1 }
    }
}

/// El primer trozo de una division.
pub open spec fn dividir(enero: bool, dias: int, lista: usize) -> Item {
    if trozos(enero, dias, lista as int) == 0 {
        Item::UnionTrozos { lista }
    } else {
        Item::Trozo { lista, trozo: 0, intento: 1 }
    }
}

/// Los dias, uno a uno, o lo que sigue si no hay.
pub open spec fn por_dias(dias: int) -> Item {
    if dias == 0 {
        Item::Pagina
    } else {
        Item::Dia { d: 0, ok: 0, seguidos: 0, paso: PasoDia::Mirar }
    }
}

/// Tras una division que no sale: la siguiente o, si no hay mas, dia a dia.
pub open spec fn otra_division(enero: bool, dias: int, lista: usize) -> Item {
    if lista + 1 < divisiones(enero).len() {
        dividir(enero, dias, (lista + 1) as usize)
    } else {
        por_dias(dias)
    }
}

/// Otro intento directo o, tras el tercero, lo que ya haya.
pub open spec fn otro_intento(intento: u32) -> Item {
    if intento < 3 {
        Item::Directo { intento: (intento + 1) as u32 }
    } else {
        Item::Dailies
    }
}

/// Tras los dias: se unen si hay alguno y faltan dos a lo sumo; si no, la pagina.
pub open spec fn tras_dias(ok: int, total: int) -> Item {
    if ok >= 1 && ok + 2 >= total {
        Item::UnionDias
    } else {
        Item::Pagina
    }
}

/// Dias malos seguidos con los que se espera y se vuelve a entrar.
pub const SEGUIDOS_ESPERA: usize = 3;

/// Dias malos seguidos con los que se deja de probar.
pub const SEGUIDOS_FIN: usize = 6;

/// Tras un dia, bueno o malo.
pub open spec fn tras_dia(dias: int, d: usize, ok: usize, seguidos: usize, bueno: bool) -> (
    Item,
    Pausa,
) {
    let ok2 = (ok + (if bueno {
        1int
    } else {
        0
    })) as usize;
    let seg2 = (if bueno {
        0int
    } else {
        seguidos + 1
    }) as usize;
    if seg2 >= SEGUIDOS_FIN {
        (tras_dias(ok2 as int, d + 1), sin_pausa())
    } else {
        (
            if d + 1 < dias {
                Item::Dia { d: (d + 1) as usize, ok: ok2, seguidos: seg2, paso: PasoDia::Mirar }
            } else {
                tras_dias(ok2 as int, d + 1)
            },
            if seg2 == SEGUIDOS_ESPERA {
                Pausa { antes: 15, entrar: true, despues: 1 }
            } else {
                pausa(1)
            },
        )
    }
}

/// Lo que sigue en la captura de un elemento de `dias` dias.
pub open spec fn paso(enero: bool, dias: int, e: Item, ev: Evento) -> (Item, Pausa) {
    match e {
        Item::Directo { intento } => match ev {
            Evento::Bueno => (
                Item::Fin { desenlace: Desenlace::Bajado },
                sin_pausa(),
            ),
            Evento::Error { caducado: true } => (Item::Sonda { intento }, sin_pausa()),
            Evento::Error { caducado: false } => (otro_intento(intento), pausa(3)),
            _ => (otro_intento(intento), sin_pausa()),
        },
        Item::Sonda { intento } => match ev {
            Evento::Bueno => (otro_intento(intento), sin_pausa()),
            _ => (Item::Fin { desenlace: Desenlace::Sistemico }, sin_pausa()),
        },
        Item::Dailies => match ev {
            Evento::Bueno => (Item::UnionDailies, sin_pausa()),
            _ => (dividir(enero, dias, 0), sin_pausa()),
        },
        Item::UnionDailies => (
            if ev == Evento::Bueno {
                Item::Fin { desenlace: Desenlace::Recuperado }
            } else {
                dividir(enero, dias, 0)
            },
            sin_pausa(),
        ),
        Item::Trozo { lista, trozo, intento } => match ev {
            Evento::Bueno => (
                if trozo + 1 < trozos(enero, dias, lista as int) {
                    Item::Trozo { lista, trozo: (trozo + 1) as usize, intento: 1 }
                } else {
                    Item::UnionTrozos { lista }
                },
                pausa(1),
            ),
            _ => (
                if intento < 2 {
                    Item::Trozo { lista, trozo, intento: 2 }
                } else {
                    otra_division(enero, dias, lista)
                },
                if ev is Error {
                    pausa(2)
                } else {
                    sin_pausa()
                },
            ),
        },
        Item::UnionTrozos { lista } => (
            if ev == Evento::Bueno {
                Item::Fin { desenlace: Desenlace::Recuperado }
            } else {
                otra_division(enero, dias, lista)
            },
            sin_pausa(),
        ),
        Item::Dia { d, ok, seguidos, paso } => match paso {
            PasoDia::Mirar => match ev {
                Evento::Archivos { csv: true, .. } => tras_dia(dias, d, ok, seguidos, true),
                Evento::Archivos { csv: false, xls: true } => (
                    Item::Dia { d, ok, seguidos, paso: PasoDia::Xls },
                    sin_pausa(),
                ),
                _ => (
                    Item::Dia { d, ok, seguidos, paso: PasoDia::Bajar { intento: 1 } },
                    sin_pausa(),
                ),
            },
            PasoDia::Xls => tras_dia(dias, d, ok, seguidos, ev == Evento::Bueno),
            PasoDia::Bajar { intento } => match ev {
                Evento::Bueno => tras_dia(dias, d, ok, seguidos, true),
                _ => if intento < 2 {
                    (
                        Item::Dia { d, ok, seguidos, paso: PasoDia::Bajar { intento: 2 } },
                        Pausa { antes: 2, entrar: true, despues: 0 },
                    )
                } else {
                    (Item::Dia { d, ok, seguidos, paso: PasoDia::Partir }, pausa(2))
                },
            },
            PasoDia::Partir => tras_dia(dias, d, ok, seguidos, ev == Evento::Bueno),
        },
        Item::UnionDias => (
            if ev == Evento::Bueno {
                Item::Fin { desenlace: Desenlace::Recuperado }
            } else {
                Item::Pagina
            },
            sin_pausa(),
        ),
        Item::Pagina => (
            Item::Fin {
                desenlace: if ev == Evento::Bueno {
                    Desenlace::Recuperado
                } else {
                    Desenlace::Fallido
                },
            },
            sin_pausa(),
        ),
        Item::Fin { .. } => (e, sin_pausa()),
    }
}

/// Los numeros de un estado estan en su sitio.
pub open spec fn valido(enero: bool, dias: int, e: Item) -> bool {
    match e {
        Item::Directo { intento } => !enero && 1 <= intento <= 3,
        Item::Sonda { intento } => !enero && 1 <= intento <= 3,
        Item::Trozo { lista, trozo, intento } => {
            &&& lista < divisiones(enero).len()
            &&& trozo < trozos(enero, dias, lista as int)
            &&& 1 <= intento <= 2
        },
        Item::UnionTrozos { lista, .. } => lista < divisiones(enero).len(),
        Item::Dia { d, ok, seguidos, paso } => {
            &&& d < dias
            &&& ok + seguidos <= d
            &&& seguidos < SEGUIDOS_FIN
            &&& match paso {
                PasoDia::Bajar { intento } => 1 <= intento <= 2,
                _ => true,
            }
        },
        Item::Fin { desenlace } => enero ==> desenlace != Desenlace::Bajado && desenlace
            != Desenlace::Sistemico,
        _ => true,
    }
}

/// Lo que queda por hacer, a lo sumo.
pub open spec fn medida(enero: bool, dias: int, e: Item) -> int {
    let base = 8 + 5 * dias;
    let n = divisiones(enero).len();
    match e {
        Item::Directo { intento } => base + n * 40 + 4 + (3 - intento) * 2,
        Item::Sonda { intento } => base + n * 40 + 3 + (3 - intento) * 2,
        Item::Dailies => base + n * 40 + 2,
        Item::UnionDailies => base + n * 40 + 1,
        Item::Trozo { lista, trozo, intento, .. } => base + (n - 1 - lista) * 40 + (trozos(
            enero,
            dias,
            lista as int,
        ) - trozo) * 2 + (2 - intento) + 1,
        Item::UnionTrozos { lista, .. } => base + (n - 1 - lista) * 40,
        Item::Dia { d, paso, .. } => 3 + (dias - d) * 5 + match paso {
            PasoDia::Mirar => 4int,
            PasoDia::Bajar { intento } => 4 - intento,
            _ => 1,
        },
        Item::UnionDias => 2,
        Item::Pagina => 1,
        Item::Fin { .. } => 0,
    }
}

proof fn lema_trozos(enero: bool, dias: int, lista: int)
    requires
        0 <= lista < divisiones(enero).len(),
        0 <= dias,
    ensures
        0 <= trozos(enero, dias, lista) <= 10,
        trozos(enero, dias, lista) <= dias,
        divisiones(enero).len() == (if enero {
            3int
        } else {
            4
        }),
{
}

proof fn lema_dividir(enero: bool, dias: int, lista: usize)
    requires
        0 <= dias,
        lista < divisiones(enero).len(),
    ensures
        valido(enero, dias, dividir(enero, dias, lista)),
        0 <= medida(enero, dias, dividir(enero, dias, lista)) < 8 + 5 * dias + (
        divisiones(enero).len() - lista) * 40,
{
    lema_trozos(enero, dias, lista as int);
}

proof fn lema_otra_division(enero: bool, dias: int, lista: usize)
    requires
        0 <= dias <= usize::MAX,
        lista < divisiones(enero).len(),
    ensures
        valido(enero, dias, otra_division(enero, dias, lista)),
        0 <= medida(enero, dias, otra_division(enero, dias, lista)) < 8 + 5 * dias + (
        divisiones(enero).len() - 1 - lista) * 40,
{
    lema_trozos(enero, dias, lista as int);
    if lista + 1 < divisiones(enero).len() {
        lema_dividir(enero, dias, (lista + 1) as usize);
    }
}

proof fn lema_tras_dia(enero: bool, dias: int, d: usize, ok: usize, seguidos: usize, bueno: bool)
    requires
        d < dias <= usize::MAX,
        ok + seguidos <= d,
        seguidos < SEGUIDOS_FIN,
    ensures
        valido(enero, dias, tras_dia(dias, d, ok, seguidos, bueno).0),
        0 <= medida(enero, dias, tras_dia(dias, d, ok, seguidos, bueno).0) <= 2 + (dias - d) * 5,
{
}

/// Todo estado que se alcanza es valido, y cada paso deja menos por hacer: la
/// captura de un elemento acaba siempre, en no mas pasos que la medida del
/// comienzo.
pub proof fn ley_item_acaba(enero: bool, dias: int, e: Item, ev: Evento)
    requires
        0 <= dias <= usize::MAX,
        valido(enero, dias, e),
    ensures
        valido(enero, dias, inicio(enero)),
        valido(enero, dias, paso(enero, dias, e, ev).0),
        !(e is Fin) ==> 0 <= medida(enero, dias, paso(enero, dias, e, ev).0) < medida(
            enero,
            dias,
            e,
        ),
{
    match e {
        Item::Directo { .. } => {
            lema_trozos(enero, dias, 0);
        },
        Item::Sonda { .. } => {
            lema_trozos(enero, dias, 0);
        },
        Item::Dailies => {
            lema_dividir(enero, dias, 0);
        },
        Item::UnionDailies => {
            lema_dividir(enero, dias, 0);
        },
        Item::Trozo { lista, .. } => {
            lema_trozos(enero, dias, lista as int);
            lema_otra_division(enero, dias, lista);
        },
        Item::UnionTrozos { lista } => {
            lema_otra_division(enero, dias, lista);
        },
        Item::Dia { d, ok, seguidos, paso } => {
            lema_tras_dia(enero, dias, d, ok, seguidos, true);
            lema_tras_dia(enero, dias, d, ok, seguidos, false);
        },
        _ => {},
    }
}

/// Los dias solo se unen si hay alguno bueno y faltan dos a lo sumo.
pub proof fn ley_union_de_dias(enero: bool, dias: int, e: Item, ev: Evento)
    requires
        valido(enero, dias, e),
        paso(enero, dias, e, ev).0 is UnionDias,
    ensures
        e matches Item::Dia { d, ok, .. } && {
            let buenos = ok + (if paso_bueno(e, ev) {
                1int
            } else {
                0
            });
            buenos >= 1 && d + 1 - buenos <= 2
        },
{
}

/// El dia en curso sale bien con este suceso.
pub open spec fn paso_bueno(e: Item, ev: Evento) -> bool {
    match e {
        Item::Dia { paso: PasoDia::Mirar, .. } => ev matches Evento::Archivos { csv: true, .. },
        _ => ev == Evento::Bueno,
    }
}

/// Se da el servidor por caido solo si, tras agotarse el tiempo, tampoco responde a
/// la peticion de un dia.
pub proof fn ley_sistemico_tras_sonda(enero: bool, dias: int, e: Item, ev: Evento)
    requires
        !(e is Fin),
        paso(enero, dias, e, ev).0 matches Item::Fin { desenlace: Desenlace::Sistemico, .. },
    ensures
        e is Sonda,
        ev != Evento::Bueno,
{
}

/// Si estan los archivos de todos los dias y se unen bien, el elemento acaba ahi, sin pedir
/// nada mas; enero empieza por mirarlos.
pub proof fn ley_diarios_sin_red(enero: bool, dias: int)
    ensures
        inicio(true) == Item::Dailies,
        paso(enero, dias, Item::Dailies, Evento::Bueno).0 == Item::UnionDailies,
        paso(enero, dias, Item::UnionDailies, Evento::Bueno).0 == (Item::Fin {
            desenlace: Desenlace::Recuperado,
        }),
{
}

fn quieta() -> (r: Pausa)
    ensures
        r == sin_pausa(),
{
    Pausa { antes: 0, entrar: false, despues: 0 }
}

fn espera(s: u64) -> (r: Pausa)
    ensures
        r == pausa(s),
{
    Pausa { antes: s, entrar: false, despues: 0 }
}

pub fn inicio_item(enero: bool) -> (r: Item)
    ensures
        r == inicio(enero),
        forall|dias: int| valido(enero, dias, r),
{
    if enero {
        Item::Dailies
    } else {
        Item::Directo { intento: 1 }
    }
}

fn partes_de(enero: bool, lista: usize) -> (r: usize)
    requires
        lista < divisiones(enero).len(),
    ensures
        r == divisiones(enero)[lista as int],
{
    divisiones_de(enero)[lista]
}

fn trozos_de(enero: bool, dias: usize, lista: usize) -> (r: usize)
    requires
        lista < divisiones(enero).len(),
    ensures
        r == trozos(enero, dias as int, lista as int),
{
    let p: usize = partes_de(enero, lista);
    if dias < p {
        dias
    } else {
        p
    }
}

fn empezar_division(enero: bool, dias: usize, lista: usize) -> (r: Item)
    requires
        lista < divisiones(enero).len(),
    ensures
        r == dividir(enero, dias as int, lista),
{
    if trozos_de(enero, dias, lista) == 0 {
        Item::UnionTrozos { lista }
    } else {
        Item::Trozo { lista, trozo: 0, intento: 1 }
    }
}

fn seguir_division(enero: bool, dias: usize, lista: usize) -> (r: Item)
    requires
        lista < divisiones(enero).len(),
    ensures
        r == otra_division(enero, dias as int, lista),
{
    if lista + 1 < divisiones_de(enero).len() {
        empezar_division(enero, dias, lista + 1)
    } else if dias == 0 {
        Item::Pagina
    } else {
        Item::Dia { d: 0, ok: 0, seguidos: 0, paso: PasoDia::Mirar }
    }
}

fn cerrar_dias(ok: usize, total: usize) -> (r: Item)
    ensures
        r == tras_dias(ok as int, total as int),
{
    if ok >= 1 && (ok >= total || total - ok <= 2) {
        Item::UnionDias
    } else {
        Item::Pagina
    }
}

fn cerrar_dia(dias: usize, d: usize, ok: usize, seguidos: usize, bueno: bool) -> (r: (Item, Pausa))
    requires
        d < dias,
        ok <= d,
        seguidos < SEGUIDOS_FIN,
    ensures
        r == tras_dia(dias as int, d, ok, seguidos, bueno),
{
    let ok2: usize = if bueno {
        ok + 1
    } else {
        ok
    };
    let seg2: usize = if bueno {
        0
    } else {
        seguidos + 1
    };
    if seg2 >= SEGUIDOS_FIN {
        return (cerrar_dias(ok2, d + 1), quieta());
    }
    let sigue = if d + 1 < dias {
        Item::Dia { d: d + 1, ok: ok2, seguidos: seg2, paso: PasoDia::Mirar }
    } else {
        cerrar_dias(ok2, d + 1)
    };
    if seg2 == SEGUIDOS_ESPERA {
        (sigue, Pausa { antes: 15, entrar: true, despues: 1 })
    } else {
        (sigue, espera(1))
    }
}

fn reintentar(intento: u32) -> (r: Item)
    requires
        intento <= 3,
    ensures
        r == otro_intento(intento),
{
    if intento < 3 {
        Item::Directo { intento: intento + 1 }
    } else {
        Item::Dailies
    }
}

/// El estado que sigue a `e` tras lo que paso, y la pausa que hay que hacer antes.
pub fn paso_item(enero: bool, dias: usize, e: Item, ev: Evento) -> (r: (Item, Pausa))
    requires
        valido(enero, dias as int, e),
    ensures
        r == paso(enero, dias as int, e, ev),
        valido(enero, dias as int, r.0),
{
    proof {
        ley_item_acaba(enero, dias as int, e, ev);
    }
    let bueno = ev == Evento::Bueno;
    match e {
        Item::Directo { intento } => match ev {
            Evento::Bueno => (
                Item::Fin { desenlace: Desenlace::Bajado },
                quieta(),
            ),
            Evento::Error { caducado } => if caducado {
                (Item::Sonda { intento }, quieta())
            } else {
                (reintentar(intento), espera(3))
            },
            _ => (reintentar(intento), quieta()),
        },
        Item::Sonda { intento } => if bueno {
            (reintentar(intento), quieta())
        } else {
            (Item::Fin { desenlace: Desenlace::Sistemico }, quieta())
        },
        Item::Dailies => if bueno {
            (Item::UnionDailies, quieta())
        } else {
            (empezar_division(enero, dias, 0), quieta())
        },
        Item::UnionDailies => if bueno {
            (Item::Fin { desenlace: Desenlace::Recuperado }, quieta())
        } else {
            (empezar_division(enero, dias, 0), quieta())
        },
        Item::Trozo { lista, trozo, intento } => {
            if bueno {
                let sigue = if trozo + 1 < trozos_de(enero, dias, lista) {
                    Item::Trozo { lista, trozo: trozo + 1, intento: 1 }
                } else {
                    Item::UnionTrozos { lista }
                };
                return (sigue, espera(1));
            }
            let sigue = if intento < 2 {
                Item::Trozo { lista, trozo, intento: 2 }
            } else {
                seguir_division(enero, dias, lista)
            };
            match ev {
                Evento::Error { .. } => (sigue, espera(2)),
                _ => (sigue, quieta()),
            }
        },
        Item::UnionTrozos { lista } => if bueno {
            (Item::Fin { desenlace: Desenlace::Recuperado }, quieta())
        } else {
            (seguir_division(enero, dias, lista), quieta())
        },
        Item::Dia { d, ok, seguidos, paso } => match paso {
            PasoDia::Mirar => {
                let (csv, xls) = match ev {
                    Evento::Archivos { csv, xls } => (csv, xls),
                    _ => (false, false),
                };
                if csv {
                    cerrar_dia(dias, d, ok, seguidos, true)
                } else if xls {
                    (Item::Dia { d, ok, seguidos, paso: PasoDia::Xls }, quieta())
                } else {
                    (
                        Item::Dia { d, ok, seguidos, paso: PasoDia::Bajar { intento: 1 } },
                        quieta(),
                    )
                }
            },
            PasoDia::Xls => cerrar_dia(dias, d, ok, seguidos, bueno),
            PasoDia::Bajar { intento } => if bueno {
                cerrar_dia(dias, d, ok, seguidos, true)
            } else if intento < 2 {
                (
                    Item::Dia { d, ok, seguidos, paso: PasoDia::Bajar { intento: 2 } },
                    Pausa { antes: 2, entrar: true, despues: 0 },
                )
            } else {
                (Item::Dia { d, ok, seguidos, paso: PasoDia::Partir }, espera(2))
            },
            PasoDia::Partir => cerrar_dia(dias, d, ok, seguidos, bueno),
        },
        Item::UnionDias => if bueno {
            (Item::Fin { desenlace: Desenlace::Recuperado }, quieta())
        } else {
            (Item::Pagina, quieta())
        },
        Item::Pagina => {
            let desenlace = if bueno {
                Desenlace::Recuperado
            } else {
                Desenlace::Fallido
            };
            (Item::Fin { desenlace }, quieta())
        },
        Item::Fin { .. } => (e, quieta()),
    }
}

// ---------------------------------------------------------------------------
// Lo que se pide en cada estado
// ---------------------------------------------------------------------------

/// Un mes de enero.
pub open spec fn de_enero(label: Seq<char>) -> bool {
    texto::termina(label, "-01"@)
}

pub fn es_enero(label: &str) -> (r: bool)
    ensures
        r == de_enero(label@),
{
    texto::termina_con(label, "-01")
}

/// Un error que dice que se agoto el tiempo.
pub open spec fn caducado(error: Seq<char>) -> bool {
    texto::contiene(error, "Timeout"@) || texto::contiene(error, "timed out"@) || texto::contiene(
        error,
        "deadline"@,
    )
}

pub fn es_caducado(error: &str) -> (r: bool)
    ensures
        r == caducado(error@),
{
    proof {
        reveal_strlit("Timeout");
        reveal_strlit("timed out");
        reveal_strlit("deadline");
    }
    texto::contiene_texto(error, "Timeout") || texto::contiene_texto(error, "timed out")
        || texto::contiene_texto(error, "deadline")
}

/// Los dias de un elemento.
pub fn dias_de(m: &MonthRange) -> (r: usize)
    requires
        m@.valido(),
    ensures
        r == fecha::dias_rango(m@),
{
    proof {
        fecha::lema_numero_en_rango(m.start);
        fecha::lema_numero_en_rango(m.end);
        fecha::lema_extremos();
    }
    let n: i64 = fecha::dias_de_a(m.start, m.end);
    if n < 0 {
        0
    } else {
        n as usize + 1
    }
}

/// El dia con el que se prueba si el servidor responde: el primero del elemento.
pub fn rango_sonda(m: &MonthRange) -> (r: MonthRange)
    requires
        m@.valido(),
    ensures
        r.start == m.start,
        r.end == m.start,
        r.label@ == fecha::texto_iso(m.start) + "-probe"@,
{
    MonthRange {
        start: m.start,
        end: m.start,
        label: texto::mas(fecha::fecha_iso(m.start), "-probe"),
    }
}

/// Los trozos de la division `lista` de un elemento.
pub fn rangos_trozos(m: &MonthRange, enero: bool, lista: usize) -> (r: Vec<MonthRange>)
    requires
        m@.valido(),
        m.end.numero() < fecha::numero_max(),
        lista < divisiones(enero).len(),
    ensures
        fecha::es_division(m@, divisiones(enero)[lista as int] as int, fecha::rangos(r@)),
        r@.len() == trozos(enero, fecha::dias_rango(m@), lista as int),
{
    proof {
        fecha::lema_numero_en_rango(m.start);
        fecha::lema_numero_en_rango(m.end);
        fecha::lema_extremos();
    }
    fecha::split_month_n(m, partes_de(enero, lista))
}

/// El dia `d` de un elemento.
pub fn rango_dia(m: &MonthRange, d: usize) -> (r: MonthRange)
    requires
        m@.valido(),
        d < fecha::dias_rango(m@),
    ensures
        r.start.valida(),
        r.start.numero() == m.start.numero() + d,
        r@ == fecha::rango_dia(r.start),
{
    proof {
        fecha::lema_numero_en_rango(m.start);
        fecha::lema_numero_en_rango(m.end);
        fecha::lema_extremos();
    }
    fecha::generate_day_range(fecha::sumar_dias(m.start, d as i64).unwrap())
}

/// Estan completos los archivos de todos los dias, y hay alguno.
pub open spec fn completos(tamanos: Seq<Option<u64>>) -> bool {
    tamanos.len() > 0 && forall|i: int|
        0 <= i < tamanos.len() ==> captura::mayor_que(
            #[trigger] tamanos[i],
            captura::CSV_COMPLETO as int,
        )
}

pub fn todos_completos(tamanos: &Vec<Option<u64>>) -> (r: bool)
    ensures
        r == completos(tamanos@),
{
    let mut i: usize = 0;
    while i < tamanos.len()
        invariant
            0 <= i <= tamanos@.len(),
            forall|k: int|
                0 <= k < i ==> captura::mayor_que(
                    #[trigger] tamanos@[k],
                    captura::CSV_COMPLETO as int,
                ),
        decreases tamanos@.len() - i,
    {
        if !captura::es_mayor_que(tamanos[i], captura::CSV_COMPLETO) {
            assert(!captura::mayor_que(tamanos@[i as int], captura::CSV_COMPLETO as int));
            return false;
        }
        i = i + 1;
    }
    tamanos.len() > 0
}

/// De los `n` primeros dias, los que no tienen su archivo completo.
pub open spec fn faltan(
    dias: Seq<Seq<char>>,
    tamanos: Seq<Option<u64>>,
    n: nat,
) -> Seq<Seq<char>>
    decreases n,
{
    if n == 0 {
        seq![]
    } else {
        let previos = faltan(dias, tamanos, (n - 1) as nat);
        if captura::mayor_que(tamanos[n - 1], captura::CSV_COMPLETO as int) {
            previos
        } else {
            previos.push(dias[n - 1])
        }
    }
}

pub open spec fn etiquetas(v: Seq<MonthRange>) -> Seq<Seq<char>> {
    v.map_values(|r: MonthRange| r.label@)
}

/// Los dias que hay que subir a mano.
pub fn faltantes(dias: &Vec<MonthRange>, tamanos: &Vec<Option<u64>>) -> (r: Vec<String>)
    requires
        dias@.len() == tamanos@.len(),
    ensures
        texto::textos(r@) == faltan(etiquetas(dias@), tamanos@, dias@.len()),
{
    let ghost es = etiquetas(dias@);
    let mut r: Vec<String> = Vec::new();
    let mut i: usize = 0;
    assert(texto::textos(r@) =~= Seq::<Seq<char>>::empty());
    while i < dias.len()
        invariant
            0 <= i <= dias@.len(),
            dias@.len() == tamanos@.len(),
            es == etiquetas(dias@),
            texto::textos(r@) == faltan(es, tamanos@, i as nat),
        decreases dias@.len() - i,
    {
        assert(es[i as int] == dias@[i as int].label@);
        let ghost antes = texto::textos(r@);
        if !captura::es_mayor_que(tamanos[i], captura::CSV_COMPLETO) {
            r.push(dias[i].label.clone());
            assert(texto::textos(r@) =~= antes.push(es[i as int]));
        }
        i = i + 1;
    }
    r
}

/// Por que fallo un elemento.
pub open spec fn detalle(faltan: Seq<Seq<char>>) -> Seq<char> {
    if faltan.len() == 0 {
        "3 intentos + granular 2/4/6/10/dia fallo"@
    } else {
        "faltan dias "@ + texto::unido(faltan, ","@) + " \u{2014} sube XLS manual"@
    }
}

pub fn detalle_fallo(faltan: &Vec<String>) -> (r: String)
    ensures
        r@ == detalle(texto::textos(faltan@)),
{
    assert(texto::textos(faltan@).len() == faltan@.len());
    if faltan.len() == 0 {
        return "3 intentos + granular 2/4/6/10/dia fallo".to_owned();
    }
    let lista = texto::unir(faltan, ",");
    let r = texto::mas("faltan dias ".to_owned(), lista.as_str());
    texto::mas(r, " \u{2014} sube XLS manual")
}

// ---------------------------------------------------------------------------
// Lo que da cada paso
// ---------------------------------------------------------------------------

/// Lo que dejo el paso de un elemento.
pub struct Obtenido {
    /// El texto del error de la descarga, si fallo.
    pub error: Option<String>,
    /// Lo bajado se convirtio, o las partes se unieron, sin error.
    pub hecho: bool,
    /// Bytes del CSV que queda, si esta.
    pub csv: Option<u64>,
    /// Bytes del libro que queda, si esta.
    pub xls: Option<u64>,
    /// Ventas que se leyeron en el CSV, si se pudo leer.
    pub leidas: Option<usize>,
    /// Las ventas se guardaron en la base.
    pub guardadas: bool,
}

/// Bytes que pasa el CSV de una parte que sirve.
pub const CSV_PARTE: u64 = 500;

pub open spec fn si(b: bool) -> Evento {
    if b {
        Evento::Bueno
    } else {
        Evento::Malo
    }
}

/// Se leyo alguna venta y se guardaron todas.
pub open spec fn con_ventas(o: Obtenido) -> bool {
    (o.leidas matches Some(n) && n > 0) && o.guardadas
}

/// Que paso, segun lo que se pedia y lo que quedo. Un mes bajado vale aunque no se
/// pueda leer; uno rehecho con trozos o con la pagina, solo si se guarda alguna venta.
pub open spec fn ocurrido(e: Item, o: Obtenido, diarios: Seq<Option<u64>>) -> Evento {
    let parte = o.hecho && captura::mayor_que(o.csv, CSV_PARTE as int);
    let completo = captura::mayor_que(o.csv, captura::CSV_COMPLETO as int);
    match e {
        Item::Directo { .. } => match o.error {
            Some(t) => Evento::Error { caducado: caducado(t@) },
            None => si(o.hecho),
        },
        Item::Sonda { .. } => si(o.error is None),
        Item::Dailies => si(completos(diarios)),
        Item::UnionDailies => si(o.hecho && completo && o.leidas is Some && o.guardadas),
        Item::Trozo { .. } => match o.error {
            Some(t) => Evento::Error { caducado: caducado(t@) },
            None => si(parte),
        },
        Item::UnionTrozos { .. } => si(completo && con_ventas(o)),
        Item::Dia { paso, .. } => match paso {
            PasoDia::Mirar => Evento::Archivos {
                csv: completo,
                xls: captura::mayor_que(o.xls, captura::CSV_COMPLETO as int),
            },
            PasoDia::Xls => si(parte),
            PasoDia::Bajar { .. } => si(o.error is None && parte),
            PasoDia::Partir => si(o.error is None && completo),
        },
        Item::UnionDias => si(o.csv is Some),
        Item::Pagina => si(o.error is None && o.csv is Some && con_ventas(o)),
        Item::Fin { .. } => Evento::Malo,
    }
}

fn bien_o_mal(b: bool) -> (r: Evento)
    ensures
        r == si(b),
{
    if b {
        Evento::Bueno
    } else {
        Evento::Malo
    }
}

/// Que paso en el paso `e`, segun lo que dejo y los archivos diarios que hay.
pub fn evento_de(e: Item, o: &Obtenido, diarios: &Vec<Option<u64>>) -> (r: Evento)
    ensures
        r == ocurrido(e, *o, diarios@),
{
    let parte = o.hecho && captura::es_mayor_que(o.csv, CSV_PARTE);
    let completo = captura::es_mayor_que(o.csv, captura::CSV_COMPLETO);
    let guardadas = match o.leidas {
        Some(n) => n > 0 && o.guardadas,
        None => false,
    };
    let sin_error = match &o.error {
        Some(_) => false,
        None => true,
    };
    let caduco = match &o.error {
        Some(t) => es_caducado(t.as_str()),
        None => false,
    };
    match e {
        Item::Directo { .. } => if sin_error {
            bien_o_mal(o.hecho)
        } else {
            Evento::Error { caducado: caduco }
        },
        Item::Sonda { .. } => bien_o_mal(sin_error),
        Item::Dailies => bien_o_mal(todos_completos(diarios)),
        Item::UnionDailies => bien_o_mal(
            o.hecho && completo && o.leidas.is_some() && o.guardadas,
        ),
        Item::Trozo { .. } => if sin_error {
            bien_o_mal(parte)
        } else {
            Evento::Error { caducado: caduco }
        },
        Item::UnionTrozos { .. } => bien_o_mal(completo && guardadas),
        Item::Dia { paso, .. } => match paso {
            PasoDia::Mirar => Evento::Archivos {
                csv: completo,
                xls: captura::es_mayor_que(o.xls, captura::CSV_COMPLETO),
            },
            PasoDia::Xls => bien_o_mal(parte),
            PasoDia::Bajar { .. } => bien_o_mal(sin_error && parte),
            PasoDia::Partir => bien_o_mal(sin_error && completo),
        },
        Item::UnionDias => bien_o_mal(o.csv.is_some()),
        Item::Pagina => bien_o_mal(sin_error && o.csv.is_some() && guardadas),
        Item::Fin { .. } => Evento::Malo,
    }
}

/// El CSV que dejo un paso se lee y se guarda en la base.
pub open spec fn se_lee(e: Item, o: Obtenido) -> bool {
    let completo = captura::mayor_que(o.csv, captura::CSV_COMPLETO as int);
    match e {
        Item::Directo { .. } => o.error is None && o.hecho && o.csv is Some,
        Item::UnionDailies => o.hecho && completo,
        Item::UnionTrozos { .. } => completo,
        Item::UnionDias => o.csv is Some,
        Item::Pagina => o.error is None && o.csv is Some,
        _ => false,
    }
}

pub fn hay_que_leer(e: Item, o: &Obtenido) -> (r: bool)
    ensures
        r == se_lee(e, *o),
{
    let completo = captura::es_mayor_que(o.csv, captura::CSV_COMPLETO);
    match e {
        Item::Directo { .. } => o.error.is_none() && o.hecho && o.csv.is_some(),
        Item::UnionDailies => o.hecho && completo,
        Item::UnionTrozos { .. } => completo,
        Item::UnionDias => o.csv.is_some(),
        Item::Pagina => o.error.is_none() && o.csv.is_some(),
        _ => false,
    }
}

/// Un mes bajado se convierte si esta su libro y aun no esta su CSV.
pub fn hay_que_convertir(xls: bool, csv: bool) -> (r: bool)
    ensures
        r == (xls && !csv),
{
    xls && !csv
}

/// Que hacer con el aviso de los dias que faltan de un elemento.
#[derive(Debug, Clone, Copy, PartialEq, Eq, Structural)]
pub enum Aviso {
    Nada,
    Borrar,
    Escribir,
}

/// El aviso se borra al guardar el elemento entero y se escribe, si faltan dias, al
/// guardarlo incompleto o al fallar.
pub open spec fn aviso(e: Item, ev: Evento, faltan: int) -> Aviso {
    let bueno = ev == Evento::Bueno;
    match e {
        Item::Directo { .. } | Item::UnionDailies => if bueno {
            Aviso::Borrar
        } else {
            Aviso::Nada
        },
        Item::UnionTrozos { .. } => if bueno {
            Aviso::Borrar
        } else {
            Aviso::Nada
        },
        Item::UnionDias => if !bueno {
            Aviso::Nada
        } else if faltan > 0 {
            Aviso::Escribir
        } else {
            Aviso::Borrar
        },
        Item::Pagina => if bueno {
            Aviso::Borrar
        } else if faltan > 0 {
            Aviso::Escribir
        } else {
            Aviso::Nada
        },
        _ => Aviso::Nada,
    }
}

pub fn aviso_tras(e: Item, ev: Evento, faltan: usize) -> (r: Aviso)
    ensures
        r == aviso(e, ev, faltan as int),
{
    let bueno = ev == Evento::Bueno;
    match e {
        Item::Directo { .. } | Item::UnionDailies => if bueno {
            Aviso::Borrar
        } else {
            Aviso::Nada
        },
        Item::UnionTrozos { .. } => if bueno {
            Aviso::Borrar
        } else {
            Aviso::Nada
        },
        Item::UnionDias => if !bueno {
            Aviso::Nada
        } else if faltan > 0 {
            Aviso::Escribir
        } else {
            Aviso::Borrar
        },
        Item::Pagina => if bueno {
            Aviso::Borrar
        } else if faltan > 0 {
            Aviso::Escribir
        } else {
            Aviso::Nada
        },
        _ => Aviso::Nada,
    }
}

/// Un elemento que acaba como fallido deja el aviso de los dias que le faltan.
pub proof fn ley_fallido_avisa(enero: bool, dias: int, e: Item, ev: Evento, faltan: int)
    requires
        valido(enero, dias, e),
        !(e is Fin),
        paso(enero, dias, e, ev).0 matches Item::Fin { desenlace: Desenlace::Fallido, .. },
        faltan > 0,
    ensures
        aviso(e, ev, faltan) == Aviso::Escribir,
{
}

/// Un elemento que se da por rehecho tiene su CSV en el disco, y ese CSV se ha leido.
pub proof fn ley_recuperado_con_csv(
    enero: bool,
    dias: int,
    e: Item,
    o: Obtenido,
    diarios: Seq<Option<u64>>,
)
    requires
        valido(enero, dias, e),
        !(e is Fin),
        paso(enero, dias, e, ocurrido(e, o, diarios)).0 matches Item::Fin {
            desenlace: Desenlace::Recuperado,
        },
    ensures
        o.csv is Some,
        se_lee(e, o),
{
}

// ---------------------------------------------------------------------------
// El lote
// ---------------------------------------------------------------------------

/// Como va un lote.
pub struct Lote {
    pub ok: Vec<String>,
    pub fail: Vec<(String, String)>,
    /// Elementos seguidos sin respuesta del servidor.
    pub sys_fail: usize,
}

#[verifier::ext_equal]
pub struct LoteVista {
    pub ok: Seq<Seq<char>>,
    pub fail: Seq<(Seq<char>, Seq<char>)>,
    pub sys_fail: int,
}

impl View for Lote {
    type V = LoteVista;

    open spec fn view(&self) -> LoteVista {
        LoteVista {
            ok: texto::textos(self.ok@),
            fail: config::pares(self.fail@),
            sys_fail: self.sys_fail as int,
        }
    }
}

/// Elementos seguidos sin respuesta con los que se abandona.
pub const SISTEMICOS_FIN: usize = 3;

pub open spec fn lote_vacio() -> LoteVista {
    LoteVista { ok: seq![], fail: seq![], sys_fail: 0 }
}

/// El lote tras un elemento.
pub open spec fn cerrado(
    l: LoteVista,
    label: Seq<char>,
    desenlace: Desenlace,
    faltan: Seq<Seq<char>>,
) -> LoteVista {
    match desenlace {
        Desenlace::Sistemico => LoteVista {
            fail: l.fail.push((label, "servidor intranet sin respuesta (timeout)"@)),
            sys_fail: l.sys_fail + 1,
            ..l
        },
        Desenlace::Fallido => LoteVista {
            fail: l.fail.push((label, detalle(faltan))),
            sys_fail: 0,
            ..l
        },
        _ => LoteVista {
            ok: l.ok.push(label),
            sys_fail: 0,
            ..l
        },
    }
}

impl Lote {
    pub fn nuevo() -> (r: Lote)
        ensures
            r@ == lote_vacio(),
    {
        let r = Lote { ok: Vec::new(), fail: Vec::new(), sys_fail: 0 };
        assert(r@ =~= lote_vacio());
        r
    }

    fn apuntar(&mut self, label: &str)
        ensures
            final(self)@ == (LoteVista { ok: old(self)@.ok.push(label@), ..old(self)@ }),
    {
        let ghost antes = self@;
        self.ok.push(label.to_owned());
        assert(self@ =~= LoteVista { ok: antes.ok.push(label@), ..antes });
    }

    /// Apunta como acabo un elemento. Devuelve si hay que abandonar el lote.
    pub fn cerrar(
        &mut self,
        label: &str,
        desenlace: Desenlace,
        faltan: &Vec<String>,
    ) -> (abandonar: bool)
        requires
            old(self).sys_fail < SISTEMICOS_FIN,
        ensures
            final(self)@ == cerrado(
                old(self)@,
                label@,
                desenlace,
                texto::textos(faltan@),
            ),
            abandonar == (desenlace == Desenlace::Sistemico && old(self).sys_fail + 1
                >= SISTEMICOS_FIN),
            !abandonar ==> final(self).sys_fail < SISTEMICOS_FIN,
    {
        let ghost antes = self@;
        match desenlace {
            Desenlace::Sistemico => {
                self.sys_fail = self.sys_fail + 1;
                let causa = "servidor intranet sin respuesta (timeout)".to_owned();
                self.fail.push((label.to_owned(), causa));
                assert(self@ =~= cerrado(
                    antes,
                    label@,
                    desenlace,
                    texto::textos(faltan@),
                ));
                self.sys_fail >= SISTEMICOS_FIN
            },
            Desenlace::Fallido => {
                self.sys_fail = 0;
                self.fail.push((label.to_owned(), detalle_fallo(faltan)));
                assert(self@ =~= cerrado(
                    antes,
                    label@,
                    desenlace,
                    texto::textos(faltan@),
                ));
                false
            },
            _ => {
                self.sys_fail = 0;
                self.apuntar(label);
                assert(self@ =~= cerrado(
                    antes,
                    label@,
                    desenlace,
                    texto::textos(faltan@),
                ));
                false
            },
        }
    }

    /// Elementos apuntados hasta ahora.
    pub fn hechos(&self) -> (r: usize)
        requires
            self@.ok.len() + self@.fail.len() <= usize::MAX,
        ensures
            r == self@.ok.len() + self@.fail.len(),
    {
        assert(texto::textos(self.ok@).len() == self.ok@.len());
        assert(config::pares(self.fail@).len() == self.fail@.len());
        self.ok.len() + self.fail.len()
    }
}

/// El lote tras una serie de desenlaces.
pub open spec fn tras_desenlaces(ds: Seq<Desenlace>, label: Seq<char>) -> LoteVista
    decreases ds.len(),
{
    if ds.len() == 0 {
        lote_vacio()
    } else {
        cerrado(tras_desenlaces(ds.drop_last(), label), label, ds.last(), seq![])
    }
}

/// Cuantos desenlaces sin respuesta hay al final.
pub open spec fn racha(ds: Seq<Desenlace>) -> int
    decreases ds.len(),
{
    if ds.len() == 0 || ds.last() != Desenlace::Sistemico {
        0
    } else {
        racha(ds.drop_last()) + 1
    }
}

/// La cuenta de fallos del servidor es la de los elementos seguidos sin respuesta:
/// cualquier otro desenlace la pone a cero.
pub proof fn ley_racha(ds: Seq<Desenlace>, label: Seq<char>)
    ensures
        tras_desenlaces(ds, label).sys_fail == racha(ds),
        tras_desenlaces(ds, label).ok.len() + tras_desenlaces(ds, label).fail.len() == ds.len(),
    decreases ds.len(),
{
    if ds.len() > 0 {
        ley_racha(ds.drop_last(), label);
    }
}

/// Cada seis elementos se vuelve a entrar, porque la sesion caduca.
pub fn toca_entrar(idx: usize) -> (r: bool)
    ensures
        r == (idx > 0 && idx % 6 == 0),
{
    idx > 0 && idx % 6 == 0
}

/// Segundos que se espera tras un elemento que tardo `segundos`: tres, y si tardo
/// mas de un minuto, la octava parte de mas, hasta treinta.
pub open spec fn espera_tras(segundos: int) -> int {
    config::SLEEP_BETWEEN_MONTHS + (if segundos > 60 {
        if segundos / 8 < 30 {
            segundos / 8
        } else {
            30
        }
    } else {
        0
    })
}

/// La espera tras el elemento `idx`; ninguna tras el ultimo ni tras uno sin respuesta
/// del servidor.
pub fn espera_item(idx: usize, total: usize, segundos: u64, desenlace: Desenlace) -> (r: Option<
    u64,
>)
    requires
        idx < total,
    ensures
        r == (if idx + 1 < total && desenlace != Desenlace::Sistemico {
            Some(espera_tras(segundos as int) as u64)
        } else {
            None
        }),
{
    if idx + 1 < total && desenlace != Desenlace::Sistemico {
        let extra: u64 = if segundos > 60 {
            if segundos / 8 < 30 {
                segundos / 8
            } else {
                30
            }
        } else {
            0
        };
        Some(config::SLEEP_BETWEEN_MONTHS + extra)
    } else {
        None
    }
}

/// Nunca se espera menos de tres segundos ni mas de treinta y tres.
pub proof fn ley_espera(segundos: int)
    ensures
        3 <= espera_tras(segundos) <= 33,
{
}

// ---------------------------------------------------------------------------
// La captura entera
// ---------------------------------------------------------------------------

/// Como acaba una captura.
#[derive(Debug, Clone, Copy, PartialEq, Eq, Structural)]
pub enum Final {
    Completa,
    SinPendientes,
    RangoInvalido,
    FaltaRequisito,
    Ocupada,
    SinCliente,
    SinAcceso,
    Abortada,
    ServidorCaido,
    Error,
}

/// En que esta una captura.
#[derive(Debug, Clone, Copy, PartialEq, Eq, Structural)]
pub enum Corrida {
    /// Ver si hay credenciales y navegador.
    Requisitos,
    /// Tomar el bloqueo.
    Bloqueo,
    /// Leer el rango pedido.
    Rango,
    /// Ver que falta.
    Pendientes,
    /// Entrar por HTTP.
    EntrarHttp { total: usize },
    /// Entrar por el navegador.
    EntrarNavegador { total: usize },
    /// Capturar un elemento.
    Elemento { idx: usize, total: usize },
    /// Quitar los repetidos.
    Repetidos,
    Fin { como: Final },
}

/// Lo que dio un paso de la captura.
#[derive(Debug, Clone, Copy, PartialEq, Eq, Structural)]
pub enum Suceso {
    Bien,
    Mal,
    /// Elementos pendientes.
    Cuantos(usize),
    /// No se pudo preparar la conexion.
    SinCliente,
    /// Se pidio parar.
    Parar,
    /// El servidor se da por caido.
    Caido,
    /// Fallo algo del equipo.
    Averia,
}

pub open spec fn fin(como: Final) -> Corrida {
    Corrida::Fin { como }
}

/// Lo que sigue en una captura. Una captura diaria no tiene rango que leer. El
/// navegador es el recurso para cuando no se entra por HTTP.
pub open spec fn tras(diaria: bool, c: Corrida, s: Suceso) -> Corrida {
    if s == Suceso::Averia && !(c is Fin) {
        fin(Final::Error)
    } else {
        match c {
            Corrida::Requisitos => if s == Suceso::Bien {
                Corrida::Bloqueo
            } else {
                fin(Final::FaltaRequisito)
            },
            Corrida::Bloqueo => if s != Suceso::Bien {
                fin(Final::Ocupada)
            } else if diaria {
                Corrida::Pendientes
            } else {
                Corrida::Rango
            },
            Corrida::Rango => if s == Suceso::Bien {
                Corrida::Pendientes
            } else {
                fin(Final::RangoInvalido)
            },
            Corrida::Pendientes => match s {
                Suceso::Cuantos(n) => if n == 0 {
                    fin(Final::SinPendientes)
                } else {
                    Corrida::EntrarHttp { total: n }
                },
                _ => fin(Final::SinPendientes),
            },
            Corrida::EntrarHttp { total } => match s {
                Suceso::Bien => Corrida::Elemento { idx: 0, total },
                Suceso::SinCliente => fin(Final::SinCliente),
                _ => Corrida::EntrarNavegador { total },
            },
            Corrida::EntrarNavegador { total } => if s == Suceso::Bien {
                Corrida::Elemento { idx: 0, total }
            } else {
                fin(Final::SinAcceso)
            },
            Corrida::Elemento { idx, total } => match s {
                Suceso::Parar => fin(Final::Abortada),
                Suceso::Caido => fin(Final::ServidorCaido),
                _ => if idx + 1 < total {
                    Corrida::Elemento { idx: (idx + 1) as usize, total }
                } else {
                    Corrida::Repetidos
                },
            },
            Corrida::Repetidos => fin(Final::Completa),
            Corrida::Fin { .. } => c,
        }
    }
}

pub open spec fn corrida_valida(c: Corrida) -> bool {
    match c {
        Corrida::EntrarHttp { total } => total > 0,
        Corrida::EntrarNavegador { total } => total > 0,
        Corrida::Elemento { idx, total } => idx < total,
        _ => true,
    }
}

fn acabar(como: Final) -> (r: Corrida)
    ensures
        r == fin(como),
{
    Corrida::Fin { como }
}

pub fn seguir_corrida(diaria: bool, c: Corrida, s: Suceso) -> (r: Corrida)
    requires
        corrida_valida(c),
    ensures
        r == tras(diaria, c, s),
        corrida_valida(r),
{
    let bien = s == Suceso::Bien;
    if s == Suceso::Averia {
        return match c {
            Corrida::Fin { .. } => c,
            _ => acabar(Final::Error),
        };
    }
    match c {
        Corrida::Requisitos => if bien {
            Corrida::Bloqueo
        } else {
            acabar(Final::FaltaRequisito)
        },
        Corrida::Bloqueo => if !bien {
            acabar(Final::Ocupada)
        } else if diaria {
            Corrida::Pendientes
        } else {
            Corrida::Rango
        },
        Corrida::Rango => if bien {
            Corrida::Pendientes
        } else {
            acabar(Final::RangoInvalido)
        },
        Corrida::Pendientes => match s {
            Suceso::Cuantos(n) => if n == 0 {
                acabar(Final::SinPendientes)
            } else {
                Corrida::EntrarHttp { total: n }
            },
            _ => acabar(Final::SinPendientes),
        },
        Corrida::EntrarHttp { total } => match s {
            Suceso::Bien => Corrida::Elemento { idx: 0, total },
            Suceso::SinCliente => acabar(Final::SinCliente),
            _ => Corrida::EntrarNavegador { total },
        },
        Corrida::EntrarNavegador { total } => if bien {
            Corrida::Elemento { idx: 0, total }
        } else {
            acabar(Final::SinAcceso)
        },
        Corrida::Elemento { idx, total } => match s {
            Suceso::Parar => acabar(Final::Abortada),
            Suceso::Caido => acabar(Final::ServidorCaido),
            _ => if idx + 1 < total {
                Corrida::Elemento { idx: idx + 1, total }
            } else {
                Corrida::Repetidos
            },
        },
        Corrida::Repetidos => acabar(Final::Completa),
        Corrida::Fin { .. } => c,
    }
}

/// El orden de los pasos de una captura, y dentro de los elementos, cuantos quedan.
pub open spec fn orden(c: Corrida) -> (int, int) {
    match c {
        Corrida::Requisitos => (8, 0),
        Corrida::Bloqueo => (7, 0),
        Corrida::Rango => (6, 0),
        Corrida::Pendientes => (5, 0),
        Corrida::EntrarHttp { .. } => (4, 0),
        Corrida::EntrarNavegador { .. } => (3, 0),
        Corrida::Elemento { idx, total } => (2, total - idx),
        Corrida::Repetidos => (1, 0),
        Corrida::Fin { .. } => (0, 0),
    }
}

/// Una captura acaba siempre. Los elementos se capturan en su orden y ninguno se
/// salta: al `idx` se llega desde el anterior o, al primero, tras entrar.
pub proof fn ley_corrida(diaria: bool, c: Corrida, s: Suceso)
    requires
        corrida_valida(c),
        !(c is Fin),
    ensures
        ({
            let r = tras(diaria, c, s);
            &&& corrida_valida(r)
            &&& orden(r).1 >= 0
            &&& orden(r).0 < orden(c).0 || (orden(r).0 == orden(c).0 && orden(r).1 < orden(c).1)
            &&& r matches Corrida::Elemento { idx, total } ==> if idx == 0 {
                c == (Corrida::EntrarHttp { total }) || c == (Corrida::EntrarNavegador { total })
            } else {
                c == (Corrida::Elemento { idx: (idx - 1) as usize, total })
            }
            &&& r == fin(Final::Completa) ==> c is Repetidos
        }),
{
}

/// Con que fase acaba una captura; si fallo algo del equipo, con la que tuviera.
pub open spec fn fase_final(como: Final) -> Option<CapturePhase> {
    match como {
        Final::Completa => Some(CapturePhase::Done),
        Final::SinPendientes => Some(CapturePhase::Done),
        Final::RangoInvalido => Some(CapturePhase::Idle),
        Final::Error => None,
        _ => Some(CapturePhase::Error),
    }
}

pub fn fase_de_final(como: Final) -> (r: Option<CapturePhase>)
    ensures
        r == fase_final(como),
{
    match como {
        Final::Completa => Some(CapturePhase::Done),
        Final::SinPendientes => Some(CapturePhase::Done),
        Final::RangoInvalido => Some(CapturePhase::Idle),
        Final::Error => None,
        _ => Some(CapturePhase::Error),
    }
}

/// Que hacer tras un intento suelto de capturar un mes: segundos de espera y si se
/// intenta otra vez. Si el navegador no arranca se espera mas.
pub fn tras_intento(intento: u32, arranco: bool, bueno: bool) -> (r: (u64, bool))
    ensures
        r.0 == (if bueno && arranco {
            0int
        } else if arranco {
            3
        } else {
            5
        }),
        r.1 == (!(bueno && arranco) && intento < 3),
{
    if bueno && arranco {
        (0, false)
    } else if arranco {
        (3, intento < 3)
    } else {
        (5, intento < 3)
    }
}

// ---------------------------------------------------------------------------
// Leyes de la captura
// ---------------------------------------------------------------------------

/// A unir los trozos de una division se llega solo desde el ultimo de ellos, y bajado bien.
/// Un trozo bueno que no es el ultimo lleva al siguiente de la misma division, y a un trozo
/// que no es el primero solo se llega desde el anterior o repitiendo el mismo.
pub proof fn ley_trozos_completos(enero: bool, dias: int, e: Item, ev: Evento)
    requires
        0 < dias <= usize::MAX,
        valido(enero, dias, e),
    ensures
        ({
            let r = paso(enero, dias, e, ev).0;
            &&& (r matches Item::UnionTrozos { lista } ==> ev == Evento::Bueno && (e matches Item::Trozo {
                lista: l,
                trozo,
                ..
            } && l == lista && trozo + 1 == trozos(enero, dias, lista as int)))
            &&& (e matches Item::Trozo { lista, trozo, .. } ==> ev == Evento::Bueno ==> (if trozo + 1
                == trozos(enero, dias, lista as int) {
                r == (Item::UnionTrozos { lista })
            } else {
                r == (Item::Trozo { lista, trozo: (trozo + 1) as usize, intento: 1 })
            }))
            &&& (r matches Item::Trozo { lista, trozo, intento } ==> trozo > 0 ==> (e matches Item::Trozo {
                lista: l,
                trozo: t,
                intento: i,
            } && l == lista && ((t + 1 == trozo && ev == Evento::Bueno && intento == 1) || (t
                == trozo && ev != Evento::Bueno && i == 1 && intento == 2))))
        }),
{
    if let Item::Trozo { lista, .. } = e {
        lema_trozos(enero, dias, lista as int);
    }
    lema_trozos(enero, dias, 0);
    if let Item::UnionTrozos { lista } = e {
        if lista + 1 < divisiones(enero).len() {
            lema_trozos(enero, dias, lista + 1);
        }
    }
    if let Item::Trozo { lista, .. } = e {
        if lista + 1 < divisiones(enero).len() {
            lema_trozos(enero, dias, lista + 1);
        }
    }
}

/// El estado tras `k` sucesos buenos seguidos.
pub open spec fn tras_buenos(enero: bool, dias: int, e: Item, k: nat) -> Item
    decreases k,
{
    if k == 0 {
        e
    } else {
        paso(enero, dias, tras_buenos(enero, dias, e, (k - 1) as nat), Evento::Bueno).0
    }
}

/// Una division que sale bien baja sus trozos uno a uno, del primero al ultimo, y solo
/// entonces los une y se da el elemento por recuperado.
pub proof fn ley_division_entera(enero: bool, dias: int, lista: usize, k: nat)
    requires
        0 < dias <= usize::MAX,
        lista < divisiones(enero).len(),
        k <= trozos(enero, dias, lista as int),
    ensures
        ({
            let primero = Item::Trozo { lista, trozo: 0, intento: 1 };
            let n = trozos(enero, dias, lista as int);
            &&& k < n ==> tras_buenos(enero, dias, primero, k) == (Item::Trozo {
                lista,
                trozo: k as usize,
                intento: 1,
            })
            &&& k == n ==> tras_buenos(enero, dias, primero, k) == (Item::UnionTrozos { lista })
            &&& k == n ==> tras_buenos(enero, dias, primero, k + 1) == (Item::Fin {
                desenlace: Desenlace::Recuperado,
            })
        }),
    decreases k,
{
    lema_trozos(enero, dias, lista as int);
    reveal_with_fuel(tras_buenos, 2);
    if k > 0 {
        ley_division_entera(enero, dias, lista, (k - 1) as nat);
    }
}

/// Se divide cada vez en mas partes, de dos a diez y enero nunca en dos; hay tantos trozos
/// como partes o, si no llegan, como dias.
pub proof fn ley_divisiones(enero: bool, dias: int, i: int, j: int)
    requires
        0 <= dias,
        0 <= i < j < divisiones(enero).len(),
    ensures
        2 <= divisiones(enero)[i] < divisiones(enero)[j] <= 10,
        enero ==> divisiones(enero)[i] > 2,
        !enero ==> divisiones(enero)[0] == 2,
        divisiones(enero).last() == 10,
        divisiones(enero).contains(4usize) && divisiones(enero).contains(6usize),
        trozos(enero, dias, i) <= trozos(enero, dias, j) <= dias,
        dias >= 10 ==> trozos(enero, dias, i) == divisiones(enero)[i],
        dias > 0 ==> trozos(enero, dias, i) > 0,
{
    let d = divisiones(enero);
    assert(d.contains(4usize)) by {
        if enero {
            assert(d[0] == 4);
        } else {
            assert(d[1] == 4);
        }
    }
    assert(d.contains(6usize)) by {
        if enero {
            assert(d[1] == 6);
        } else {
            assert(d[2] == 6);
        }
    }
}

/// Cada division se empieza por su primer trozo, y se pasa a la siguiente solo si la
/// anterior falla: tras dos intentos de un trozo o si sus trozos no se unen. Tras la ultima
/// se va dia a dia, desde el primero.
pub proof fn ley_orden_divisiones(enero: bool, dias: int, e: Item, ev: Evento)
    requires
        0 < dias <= usize::MAX,
        valido(enero, dias, e),
    ensures
        ({
            let r = paso(enero, dias, e, ev).0;
            let falla_division = ev != Evento::Bueno && (e matches Item::Trozo { intento, .. }
                ==> intento == 2) && (e is Trozo || e is UnionTrozos);
            let lista = match e {
                Item::Trozo { lista, .. } => lista,
                Item::UnionTrozos { lista } => lista,
                _ => 0,
            };
            &&& falla_division && lista + 1 < divisiones(enero).len() ==> r == (Item::Trozo {
                lista: (lista + 1) as usize,
                trozo: 0,
                intento: 1,
            })
            &&& falla_division && lista + 1 == divisiones(enero).len() ==> r == (Item::Dia {
                d: 0,
                ok: 0,
                seguidos: 0,
                paso: PasoDia::Mirar,
            })
            &&& (e is Dailies || e is UnionDailies) && ev != Evento::Bueno ==> r == (Item::Trozo {
                lista: 0,
                trozo: 0,
                intento: 1,
            })
            &&& (r is Dia && !(e is Dia)) ==> falla_division
            &&& (e matches Item::Trozo { lista: l, trozo, intento } ==> ev != Evento::Bueno && intento
                == 1 ==> r == (Item::Trozo { lista: l, trozo, intento: 2 }))
        }),
{
    lema_trozos(enero, dias, 0);
    if let Item::Trozo { lista, .. } = e {
        if lista + 1 < divisiones(enero).len() {
            lema_trozos(enero, dias, lista + 1);
        }
    }
    if let Item::UnionTrozos { lista } = e {
        if lista + 1 < divisiones(enero).len() {
            lema_trozos(enero, dias, lista + 1);
        }
    }
}

/// Un elemento acaba bajado solo si se bajo entero; recuperado, solo si se unieron bien sus
/// partes o se leyo la pagina; fallido, solo si tampoco valio la pagina. Y si pasa eso,
/// acaba asi.
pub proof fn ley_desenlaces(enero: bool, dias: int, e: Item, ev: Evento)
    requires
        !(e is Fin),
    ensures
        ({
            let r = paso(enero, dias, e, ev).0;
            let bueno = ev == Evento::Bueno;
            &&& r == (Item::Fin { desenlace: Desenlace::Bajado }) <==> e is Directo && bueno
            &&& r == (Item::Fin { desenlace: Desenlace::Recuperado }) <==> bueno && (
            e is UnionDailies || e is UnionTrozos || e is UnionDias || e is Pagina)
            &&& r == (Item::Fin { desenlace: Desenlace::Sistemico }) <==> e is Sonda && !bueno
            &&& r == (Item::Fin { desenlace: Desenlace::Fallido }) <==> e is Pagina && !bueno
        }),
{
}

/// El rango entero se pide tres veces, contadas una a una; si se agota el tiempo se prueba
/// antes con un dia, sin gastar intento, y tras la tercera se mira lo que ya haya.
pub proof fn ley_intentos_directos(enero: bool, dias: int, intento: u32, ev: Evento)
    requires
        1 <= intento <= 3,
        ev != Evento::Bueno,
    ensures
        ({
            let r = paso(enero, dias, Item::Directo { intento }, ev).0;
            let t = paso(enero, dias, Item::Sonda { intento }, Evento::Bueno).0;
            &&& ev == (Evento::Error { caducado: true }) ==> r == (Item::Sonda { intento })
            &&& ev != (Evento::Error { caducado: true }) ==> r == t
            &&& intento < 3 ==> t == (Item::Directo { intento: (intento + 1) as u32 })
            &&& intento == 3 ==> t == Item::Dailies
            &&& inicio(false) == (Item::Directo { intento: 1 })
        }),
{
}

/// Los dias se capturan en su orden y ninguno se salta. Un dia bueno suma uno a los buenos y
/// acaba con los malos seguidos; uno malo suma uno a estos. Antes de dar un dia por malo se
/// baja dos veces y por tramos. Se deja de probar con el ultimo o con seis malos seguidos.
pub proof fn ley_dias_en_orden(enero: bool, dias: int, e: Item, ev: Evento)
    requires
        0 < dias <= usize::MAX,
        valido(enero, dias, e),
        e is Dia,
    ensures
        ({
            let r = paso(enero, dias, e, ev).0;
            let d = e->d;
            let ok = e->ok;
            let seguidos = e->seguidos;
            let bueno = paso_bueno(e, ev);
            let cerrado = bueno || e->paso == PasoDia::Xls || e->paso == PasoDia::Partir;
            &&& bueno ==> (if d + 1 < dias {
                r == (Item::Dia {
                    d: (d + 1) as usize,
                    ok: (ok + 1) as usize,
                    seguidos: 0,
                    paso: PasoDia::Mirar,
                })
            } else {
                !(r is Dia)
            })
            &&& !bueno && cerrado ==> (if d + 1 < dias && seguidos < 5 {
                r == (Item::Dia {
                    d: (d + 1) as usize,
                    ok,
                    seguidos: (seguidos + 1) as usize,
                    paso: PasoDia::Mirar,
                })
            } else {
                !(r is Dia)
            })
            &&& !cerrado ==> (r matches Item::Dia { d: d2, ok: o2, seguidos: s2, .. } && d2 == d && o2
                == ok && s2 == seguidos)
            &&& !cerrado && e->paso == (PasoDia::Bajar { intento: 2 }) ==> r->paso
                == PasoDia::Partir
            &&& !cerrado && e->paso == (PasoDia::Bajar { intento: 1 }) ==> r->paso == (
            PasoDia::Bajar { intento: 2 })
            &&& !cerrado && e->paso == PasoDia::Mirar ==> r->paso == (if ev
                matches Evento::Archivos { xls: true, .. } {
                PasoDia::Xls
            } else {
                PasoDia::Bajar { intento: 1 }
            })
            &&& !(r is Dia) ==> (r == Item::UnionDias || r == Item::Pagina)
        }),
{
}

/// Tras los dias se une lo que hay si faltan dos como mucho, y si no se va a la pagina.
pub proof fn ley_tras_los_dias(ok: int, total: int)
    requires
        0 <= ok <= total,
    ensures
        tras_dias(ok, total) == Item::UnionDias <==> ok > 0 && total - ok <= 2,
        tras_dias(ok, total) == Item::Pagina <==> ok == 0 || total - ok > 2,
{
}

/// Solo se vuelve a entrar entre dias: tras bajar mal uno por primera vez o al tercer dia
/// malo seguido. Lo que sale bien fuera de trozos y dias no espera, un error de red espera
/// tres segundos y uno de un trozo, dos.
pub proof fn ley_pausas(enero: bool, dias: int, e: Item, ev: Evento)
    requires
        0 <= dias <= usize::MAX,
        valido(enero, dias, e),
    ensures
        ({
            let r = paso(enero, dias, e, ev).0;
            let p = paso(enero, dias, e, ev).1;
            let nada = p.antes == 0 && !p.entrar && p.despues == 0;
            &&& p.antes <= 15 && p.despues <= 1
            &&& p.entrar <==> ((e matches Item::Dia { paso: PasoDia::Bajar { intento: 1 }, .. } && ev
                != Evento::Bueno) || ((e matches Item::Dia { seguidos: 2, paso, .. } && (paso
                == PasoDia::Xls || paso == PasoDia::Partir) && ev != Evento::Bueno)))
            &&& p.despues == 1 ==> p.entrar && p.antes == 15
            &&& !(e is Directo || e is Trozo || e is Dia) ==> nada
            &&& e is Directo ==> (if ev == (Evento::Error { caducado: false }) {
                p.antes == 3
            } else {
                nada
            })
            &&& e is Trozo ==> p.antes == (if ev == Evento::Bueno {
                1int
            } else if ev is Error {
                2
            } else {
                0
            })
            &&& (r matches Item::Dia { d: d2, .. } ==> e matches Item::Dia { d, .. } ==> d2 > d
                ==> p.antes >= 1)
        }),
{
}

/// El tamano de un archivo que existe y pasa de `n` bytes.
pub open spec fn pasa_de(t: Option<u64>, n: int) -> bool {
    t matches Some(b) && b > n
}

/// Una parte vale si se bajo sin error, se convirtio y su CSV pasa de quinientos bytes; lo
/// unido y los dias por tramos, si pasa de mil; los archivos diarios, si hay y pasan todos de
/// mil. Lo rehecho con trozos o con la pagina, solo si se leyo y guardo alguna venta.
pub proof fn ley_que_vale(e: Item, o: Obtenido, diarios: Seq<Option<u64>>)
    ensures
        ({
            let bueno = ocurrido(e, o, diarios) == Evento::Bueno;
            let vendio = o.leidas matches Some(n) && n > 0 && o.guardadas;
            &&& e is Directo ==> (bueno <==> o.error is None && o.hecho)
            &&& e is Sonda ==> (bueno <==> o.error is None)
            &&& e is Trozo ==> (bueno <==> o.error is None && o.hecho && pasa_de(o.csv, 500))
            &&& e is UnionTrozos ==> (bueno <==> pasa_de(o.csv, 1000) && vendio)
            &&& e is UnionDailies ==> (bueno <==> o.hecho && pasa_de(o.csv, 1000) && o.leidas is Some
                && o.guardadas)
            &&& e is Dailies ==> (bueno <==> diarios.len() > 0 && forall|i: int|
                0 <= i < diarios.len() ==> pasa_de(#[trigger] diarios[i], 1000))
            &&& e is UnionDias ==> (bueno <==> o.csv is Some)
            &&& e is Pagina ==> (bueno <==> o.error is None && o.csv is Some && vendio)
            &&& (e is Directo || e is Trozo) && o.error is Some ==> ocurrido(e, o, diarios) is Error
            &&& (e matches Item::Dia { paso, .. } ==> match paso {
                PasoDia::Mirar => ocurrido(e, o, diarios) == (Evento::Archivos {
                    csv: pasa_de(o.csv, 1000),
                    xls: pasa_de(o.xls, 1000),
                }),
                PasoDia::Xls => bueno <==> o.hecho && pasa_de(o.csv, 500),
                PasoDia::Bajar { .. } => bueno <==> o.error is None && o.hecho && pasa_de(o.csv, 500),
                PasoDia::Partir => bueno <==> o.error is None && pasa_de(o.csv, 1000),
            })
        }),
{
    if e is Dailies {
        let bueno = ocurrido(e, o, diarios) == Evento::Bueno;
        if bueno {
            assert forall|i: int| 0 <= i < diarios.len() implies pasa_de(
                #[trigger] diarios[i],
                1000,
            ) by {
                assert(captura::mayor_que(diarios[i], 1000));
            }
        } else if diarios.len() > 0 {
            let i = choose|i: int|
                0 <= i < diarios.len() && !captura::mayor_que(#[trigger] diarios[i], 1000);
            assert(!pasa_de(diarios[i], 1000));
        }
    }
}

/// Se lee y se guarda el CSV de todo paso que, de salir bien, acaba el elemento, y solo si
/// esta en el disco y el paso no dio error.
pub proof fn ley_que_se_lee(e: Item, o: Obtenido)
    ensures
        se_lee(e, o) ==> o.csv is Some && (e is Directo || e is UnionDailies || e is UnionTrozos
            || e is UnionDias || e is Pagina),
        (e is Directo || e is Pagina) && o.error is Some ==> !se_lee(e, o),
        e is UnionDias ==> se_lee(e, o) == (o.csv is Some),
        e is UnionTrozos ==> se_lee(e, o) == pasa_de(o.csv, 1000),
        e is UnionDailies ==> se_lee(e, o) == (o.hecho && pasa_de(o.csv, 1000)),
        e is Directo ==> se_lee(e, o) == (o.error is None && o.hecho && o.csv is Some),
        e is Pagina ==> se_lee(e, o) == (o.error is None && o.csv is Some),
{
}

/// El aviso de los dias que faltan se borra solo al guardar el elemento y se escribe solo si
/// falta alguno.
pub proof fn ley_avisos(e: Item, ev: Evento, faltan: int)
    requires
        faltan >= 0,
    ensures
        aviso(e, ev, faltan) == Aviso::Borrar <==> ev == Evento::Bueno && (e is Directo
            || e is UnionDailies || e is UnionTrozos || e is Pagina || (e is UnionDias && faltan
            == 0)),
        aviso(e, ev, faltan) == Aviso::Escribir <==> faltan > 0 && ((e is UnionDias && ev
            == Evento::Bueno) || (e is Pagina && ev != Evento::Bueno)),
{
}

/// `x` es uno de los `n` primeros dias, y su archivo no pasa de mil bytes.
pub open spec fn dia_incompleto(
    dias: Seq<Seq<char>>,
    tamanos: Seq<Option<u64>>,
    n: int,
    x: Seq<char>,
) -> bool {
    exists|i: int| 0 <= i < n && !pasa_de(tamanos[i], 1000) && #[trigger] dias[i] == x
}

/// Los dias que faltan son, en su orden, justo los que no tienen un archivo de mas de mil
/// bytes.
pub proof fn ley_faltan(dias: Seq<Seq<char>>, tamanos: Seq<Option<u64>>, n: nat)
    requires
        n <= dias.len() == tamanos.len(),
    ensures
        forall|i: int|
            0 <= i < n && !pasa_de(tamanos[i], 1000) ==> faltan(dias, tamanos, n).contains(
                #[trigger] dias[i],
            ),
        forall|k: int|
            0 <= k < faltan(dias, tamanos, n).len() ==> dia_incompleto(
                dias,
                tamanos,
                n as int,
                #[trigger] faltan(dias, tamanos, n)[k],
            ),
        (forall|i: int| 0 <= i < n ==> pasa_de(#[trigger] tamanos[i], 1000)) ==> faltan(
            dias,
            tamanos,
            n,
        ).len() == 0,
        (forall|i: int| 0 <= i < n ==> !pasa_de(#[trigger] tamanos[i], 1000)) ==> faltan(
            dias,
            tamanos,
            n,
        ) == dias.take(n as int),
    decreases n,
{
    let todos = faltan(dias, tamanos, n);
    if n == 0 {
        assert(todos =~= dias.take(0));
    } else {
        ley_faltan(dias, tamanos, (n - 1) as nat);
        let previos = faltan(dias, tamanos, (n - 1) as nat);
        let falta = !pasa_de(tamanos[n - 1], 1000);
        assert(todos == if falta {
            previos.push(dias[n - 1])
        } else {
            previos
        });
        assert forall|i: int| 0 <= i < n && !pasa_de(tamanos[i], 1000) implies todos.contains(
            #[trigger] dias[i],
        ) by {
            if i < n - 1 {
                assert(previos.contains(dias[i]));
                let k = choose|k: int| 0 <= k < previos.len() && previos[k] == dias[i];
                assert(todos[k] == dias[i]);
            } else {
                assert(todos[previos.len() as int] == dias[i]);
            }
        }
        assert forall|k: int| 0 <= k < todos.len() implies dia_incompleto(
            dias,
            tamanos,
            n as int,
            #[trigger] todos[k],
        ) by {
            if k < previos.len() {
                assert(todos[k] == previos[k]);
                assert(dia_incompleto(dias, tamanos, n - 1, previos[k]));
                let i = choose|i: int|
                    0 <= i < n - 1 && !pasa_de(tamanos[i], 1000) && #[trigger] dias[i]
                        == previos[k];
                assert(dias[i] == todos[k]);
            } else {
                assert(dias[n - 1] == todos[k]);
            }
        }
        if forall|i: int| 0 <= i < n ==> !pasa_de(#[trigger] tamanos[i], 1000) {
            assert(!pasa_de(tamanos[n - 1], 1000));
            assert(todos =~= dias.take(n as int));
        }
        if forall|i: int| 0 <= i < n ==> pasa_de(#[trigger] tamanos[i], 1000) {
            assert(pasa_de(tamanos[n - 1], 1000));
        }
    }
}

/// Cada elemento se apunta una vez y en un solo sitio, detras de los demas: entre los buenos
/// si se bajo o se recupero y entre los fallidos, con su causa, si no.
pub proof fn ley_cierre(
    l: LoteVista,
    label: Seq<char>,
    desenlace: Desenlace,
    faltan: Seq<Seq<char>>,
)
    ensures
        ({
            let r = cerrado(l, label, desenlace, faltan);
            let bien = desenlace == Desenlace::Bajado || desenlace == Desenlace::Recuperado;
            &&& bien ==> r.ok == l.ok.push(label) && r.fail == l.fail
            &&& !bien ==> r.ok == l.ok && r.fail.len() == l.fail.len() + 1 && r.fail.take(
                l.fail.len() as int,
            ) == l.fail && r.fail.last().0 == label
            &&& desenlace == Desenlace::Fallido && faltan.len() > 0 ==> texto::contiene(
                r.fail.last().1,
                texto::unido(faltan, ","@),
            )
            &&& desenlace == Desenlace::Sistemico ==> r.sys_fail == l.sys_fail + 1
            &&& desenlace != Desenlace::Sistemico ==> r.sys_fail == 0
        }),
{
    let r = cerrado(l, label, desenlace, faltan);
    if desenlace == Desenlace::Sistemico || desenlace == Desenlace::Fallido {
        assert(r.fail.take(l.fail.len() as int) =~= l.fail);
    }
    if desenlace == Desenlace::Fallido && faltan.len() > 0 {
        let u = texto::unido(faltan, ","@);
        let a = "faltan dias "@;
        let t = detalle(faltan);
        assert(t.subrange(a.len() as int, (a.len() + u.len()) as int) =~= u);
        assert(texto::aparece(t, u, a.len() as int));
    }
}

/// Esperar tras un elemento que tardo mas nunca es esperar menos: tres segundos hasta el
/// minuto, y a partir de los cuatro minutos, treinta y tres.
pub proof fn ley_espera_crece(a: int, b: int)
    requires
        0 <= a <= b,
    ensures
        espera_tras(a) <= espera_tras(b),
        b <= 60 ==> espera_tras(b) == 3,
        a >= 240 ==> espera_tras(a) == 33,
        60 < a < 240 ==> 8 * (espera_tras(a) - 3) <= a < 8 * (espera_tras(a) - 2),
{
}

/// Los elementos que se capturan son los pendientes, del primero al ultimo: el total no
/// cambia, solo se deja a medias si se pide parar o el servidor cae, y los repetidos se
/// quitan cuando ya no queda ninguno. Lo que falla antes dice por que.
pub proof fn ley_corrida_entera(diaria: bool, c: Corrida, s: Suceso)
    requires
        corrida_valida(c),
        s != Suceso::Averia,
    ensures
        ({
            let r = tras(diaria, c, s);
            let bien = s == Suceso::Bien;
            &&& c == Corrida::Requisitos ==> r == (if bien {
                Corrida::Bloqueo
            } else {
                Corrida::Fin { como: Final::FaltaRequisito }
            })
            &&& c == Corrida::Bloqueo && !bien ==> r == (Corrida::Fin { como: Final::Ocupada })
            &&& c == Corrida::Bloqueo && bien ==> (r == Corrida::Rango <==> !diaria) && (r
                == Corrida::Pendientes <==> diaria)
            &&& c == Corrida::Rango ==> r == (if bien {
                Corrida::Pendientes
            } else {
                Corrida::Fin { como: Final::RangoInvalido }
            })
            &&& (c == Corrida::Pendientes && s is Cuantos) ==> (if s->Cuantos_0 > 0 {
                r == (Corrida::EntrarHttp { total: s->Cuantos_0 })
            } else {
                r == (Corrida::Fin { como: Final::SinPendientes })
            })
            &&& (c matches Corrida::EntrarHttp { total } ==> (bien ==> r == (Corrida::Elemento {
                idx: 0,
                total,
            })) && (s == Suceso::SinCliente ==> r == (Corrida::Fin { como: Final::SinCliente })) && (
            !bien && s != Suceso::SinCliente ==> r == (Corrida::EntrarNavegador { total })))
            &&& (c matches Corrida::EntrarNavegador { total } ==> r == (if bien {
                Corrida::Elemento { idx: 0, total }
            } else {
                Corrida::Fin { como: Final::SinAcceso }
            }))
            &&& (c matches Corrida::Elemento { idx, total } ==> (s == Suceso::Parar ==> r == (
            Corrida::Fin { como: Final::Abortada })) && (s == Suceso::Caido ==> r == (Corrida::Fin {
                como: Final::ServidorCaido,
            })) && (s != Suceso::Parar && s != Suceso::Caido ==> (if idx + 1 == total {
                r == Corrida::Repetidos
            } else {
                r == (Corrida::Elemento { idx: (idx + 1) as usize, total })
            })))
            &&& c == Corrida::Repetidos ==> r == (Corrida::Fin { como: Final::Completa })
            &&& r == (Corrida::Fin { como: Final::Completa }) && !(c is Fin) ==> c
                == Corrida::Repetidos
        }),
{
}

/// Una captura acaba como hecha solo si se completo o no habia nada que hacer; con un fallo
/// del equipo se queda como estaba y lo demas es un error, salvo un rango mal pedido.
pub proof fn ley_fase_final(como: Final)
    ensures
        fase_final(como) == Some(CapturePhase::Done) <==> como == Final::Completa || como
            == Final::SinPendientes,
        fase_final(como) is None <==> como == Final::Error,
        fase_final(como) == Some(CapturePhase::Idle) <==> como == Final::RangoInvalido,
        fase_final(como) is Some ==> fase_final(como)->0 == CapturePhase::Done || fase_final(como)->0
            == CapturePhase::Idle || fase_final(como)->0 == CapturePhase::Error,
{
}

/// Es de enero lo que acaba en `-01`, y es por tiempo el error que lo dice en cualquier
/// parte.
pub proof fn ley_enero_y_tiempo(a: Seq<char>, b: Seq<char>)
    ensures
        de_enero(a + "-01"@),
        a.len() >= 3 && de_enero(a) ==> a.skip(a.len() - 3) == "-01"@,
        caducado(a + "Timeout"@ + b),
        caducado(a + "timed out"@ + b),
        caducado(a + "deadline"@ + b),
        a.len() < 7 ==> !caducado(a),
{
    reveal_strlit("-01");
    reveal_strlit("Timeout");
    reveal_strlit("timed out");
    reveal_strlit("deadline");
    let s = a + "-01"@;
    assert(s.subrange(s.len() - 3, s.len() as int) =~= "-01"@);
    if a.len() >= 3 && de_enero(a) {
        assert(a.skip(a.len() - 3) =~= a.subrange(a.len() - 3, a.len() as int));
    }
    let t = a + "Timeout"@ + b;
    assert(t.subrange(a.len() as int, a.len() as int + 7) =~= "Timeout"@);
    assert(texto::aparece(t, "Timeout"@, a.len() as int));
    let t = a + "timed out"@ + b;
    assert(t.subrange(a.len() as int, a.len() as int + 9) =~= "timed out"@);
    assert(texto::aparece(t, "timed out"@, a.len() as int));
    let t = a + "deadline"@ + b;
    assert(t.subrange(a.len() as int, a.len() as int + 8) =~= "deadline"@);
    assert(texto::aparece(t, "deadline"@, a.len() as int));
}

/// Los limites: a los tres dias malos seguidos se espera y a los seis se deja, un trozo vale si
/// pasa de quinientos bytes, y a los tres meses sin respuesta el servidor se da por caido.
pub proof fn ley_limites()
    ensures
        SEGUIDOS_ESPERA == 3,
        SEGUIDOS_FIN == 6,
        CSV_PARTE == 500,
        SISTEMICOS_FIN == 3,
{
}

} // verus!
