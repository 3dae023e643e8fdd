//! Sincronizacion automatica: requisitos, pasos, marca de subida y horas.

use crate::config::AppConfig;
use crate::fecha;
use crate::fecha::Fecha;
use crate::fecha::MonthRange;
use crate::texto;
use crate::uploader::VerificationResult;
use vstd::prelude::*;

verus! {

// ---------------------------------------------------------------------------
// Pasos
// ---------------------------------------------------------------------------

/// Quien pide la sincronizacion.
#[derive(Debug, Clone, Copy, PartialEq, Eq, Structural)]
pub enum Origen {
    /// El panel.
    Panel,
    /// El programador de tareas.
    Tarea,
}

/// Lo que falta para sincronizar: la subida y las credenciales de la intranet.
pub fn requisitos(cfg: &AppConfig) -> (r: Result<(), String>)
    ensures
        if !cfg.supabase.configurado() {
            r matches Err(m) && m@ == "Supabase no configurado"@
        } else if cfg.intranet.user@.len() == 0 || cfg.intranet.pass@.len() == 0 {
            r matches Err(m) && m@ == "Credenciales de intranet no configuradas"@
        } else {
            r is Ok
        },
{
    if !cfg.supabase.is_configured() {
        return Err("Supabase no configurado".to_owned());
    }
    if cfg.intranet.user.as_str().unicode_len() == 0 || cfg.intranet.pass.as_str().unicode_len()
        == 0 {
        return Err("Credenciales de intranet no configuradas".to_owned());
    }
    Ok(())
}

/// El dia anterior, que es el que se captura.
pub fn ayer(hoy: Fecha) -> (r: Option<String>)
    requires
        hoy.valida(),
    ensures
        match r {
            Some(s) => exists|f: Fecha|
                f.valida() && #[trigger] f.numero() == hoy.numero() - 1 && s@ == fecha::texto_iso(
                    f,
                ),
            None => hoy.numero() - 1 < fecha::numero_min(),
        },
{
    proof {
        fecha::lema_numero_en_rango(hoy);
    }
    match fecha::sumar_dias(hoy, -1) {
        Some(f) => Some(fecha::fecha_iso(f)),
        None => None,
    }
}

/// En que esta la sincronizacion diaria.
#[derive(Debug, Clone, Copy, PartialEq, Eq, Structural)]
pub enum Paso {
    Captura,
    Integridad,
    Checksums,
    /// Contar lo que hay que subir.
    Conteo,
    Subida,
    /// Comparar lo enviado con lo recibido.
    Verificacion,
    Fin,
    /// No habia nada que subir.
    Vacio,
    Error,
}

/// Lo que dio un paso.
#[derive(Debug, Clone, Copy, PartialEq, Eq, Structural)]
pub enum Suceso {
    Bien,
    Mal,
    /// Filas que hay que subir.
    Filas(usize),
}

/// Lo que sigue. Solo detienen la sincronizacion la captura, el conteo y la subida;
/// los demas pasos se dan aunque fallen. La tarea calcula los checksums al final y el
/// panel antes de subir.
pub open spec fn siguiente(o: Origen, p: Paso, s: Suceso) -> Paso {
    match p {
        Paso::Captura => if s == Suceso::Mal {
            Paso::Error
        } else {
            Paso::Integridad
        },
        Paso::Integridad => if o == Origen::Panel {
            Paso::Checksums
        } else {
            Paso::Conteo
        },
        Paso::Checksums => if o == Origen::Panel {
            Paso::Conteo
        } else {
            Paso::Fin
        },
        Paso::Conteo => match s {
            Suceso::Mal => Paso::Error,
            Suceso::Filas(n) => if n == 0 {
                Paso::Vacio
            } else {
                Paso::Subida
            },
            Suceso::Bien => Paso::Vacio,
        },
        Paso::Subida => if s == Suceso::Mal {
            Paso::Error
        } else {
            Paso::Verificacion
        },
        Paso::Verificacion => if o == Origen::Panel {
            Paso::Fin
        } else {
            Paso::Checksums
        },
        _ => p,
    }
}

pub fn seguir(o: Origen, p: Paso, s: Suceso) -> (r: Paso)
    ensures
        r == siguiente(o, p, s),
{
    let mal = s == Suceso::Mal;
    match p {
        Paso::Captura => if mal {
            Paso::Error
        } else {
            Paso::Integridad
        },
        Paso::Integridad => if o == Origen::Panel {
            Paso::Checksums
        } else {
            Paso::Conteo
        },
        Paso::Checksums => if o == Origen::Panel {
            Paso::Conteo
        } else {
            Paso::Fin
        },
        Paso::Conteo => match s {
            Suceso::Mal => Paso::Error,
            Suceso::Filas(n) => if n == 0 {
                Paso::Vacio
            } else {
                Paso::Subida
            },
            Suceso::Bien => Paso::Vacio,
        },
        Paso::Subida => if mal {
            Paso::Error
        } else {
            Paso::Verificacion
        },
        Paso::Verificacion => if o == Origen::Panel {
            Paso::Fin
        } else {
            Paso::Checksums
        },
        _ => p,
    }
}

/// El lugar de cada paso en el orden de un origen.
pub open spec fn lugar(o: Origen, p: Paso) -> int {
    match p {
        Paso::Captura => 0,
        Paso::Integridad => 1,
        Paso::Checksums => if o == Origen::Panel {
            2
        } else {
            6
        },
        Paso::Conteo => 3,
        Paso::Subida => 4,
        Paso::Verificacion => 5,
        _ => 7,
    }
}

/// La sincronizacion avanza siempre y acaba; no se sube sin haber capturado ni sin
/// filas que subir.
pub proof fn ley_pasos(o: Origen, p: Paso, s: Suceso)
    ensures
        lugar(o, p) < 7 ==> lugar(o, p) < lugar(o, siguiente(o, p, s)),
        siguiente(o, p, s) == Paso::Subida && p != Paso::Subida ==> p == Paso::Conteo && (
        s matches Suceso::Filas(n) && n > 0),
{
}

// ---------------------------------------------------------------------------
// Marca de subida
// ---------------------------------------------------------------------------

/// Se adelanta la marca de la ultima subida: solo si lo recibido es lo enviado y,
/// desde el panel, si se envio algo. Lo que no se pudo verificar no la adelanta.
pub open spec fn adelanta(o: Origen, subidas: int, cuadra: Option<bool>) -> bool {
    cuadra == Some(true) && (o == Origen::Tarea || subidas > 0)
}

pub fn adelanta_marca(o: Origen, subidas: usize, v: &Option<VerificationResult>) -> (r: bool)
    ensures
        r == adelanta(
            o,
            subidas as int,
            match v {
                Some(x) => Some(x.matched),
                None => None,
            },
        ),
{
    match v {
        Some(x) => x.matched && (o == Origen::Tarea || subidas > 0),
        None => false,
    }
}

/// Lo que se da por verificado cuando no se pudo verificar: nada.
pub fn sin_verificar(subidas: usize) -> (r: VerificationResult)
    ensures
        r.expected_count == subidas,
        r.actual_count == 0,
        !r.matched,
        r.discrepancy == subidas,
{
    VerificationResult {
        expected_count: subidas,
        actual_count: 0,
        matched: false,
        discrepancy: subidas,
    }
}

/// Tras una subida sin verificar, la marca se adelanta solo si se subio algo.
pub fn adelanta_sin_verificar(subidas: usize) -> (r: bool)
    ensures
        r == (subidas > 0),
{
    subidas > 0
}

pub open spec fn texto_limpiadas(n: int) -> Seq<char> {
    if n > 0 {
        " + "@ + texto::decimal(n as nat) + " antiguos limpiados"@
    } else {
        seq![]
    }
}

pub open spec fn texto_verificacion(v: VerificationResult) -> Seq<char> {
    if v.matched {
        " verificado: "@ + texto::decimal(v.actual_count as nat) + " filas confirmadas"@
    } else {
        " verificaci\u{f3}n: esperadas "@ + texto::decimal(v.expected_count as nat)
            + ", encontradas "@ + texto::decimal(v.actual_count as nat)
    }
}

/// Lo que se dice al acabar una subida.
pub fn mensaje_subida(subidas: usize, limpiadas: usize) -> (r: String)
    ensures
        r@ == "Sync OK: "@ + texto::decimal(subidas as nat) + " rows"@ + texto_limpiadas(
            limpiadas as int,
        ),
{
    let r = texto::mas("Sync OK: ".to_owned(), texto::texto_usize(subidas).as_str());
    let r = texto::mas(r, " rows");
    if limpiadas > 0 {
        let l = texto::mas(" + ".to_owned(), texto::texto_usize(limpiadas).as_str());
        texto::mas(r, texto::mas(l, " antiguos limpiados").as_str())
    } else {
        assert(r@ =~= r@ + texto_limpiadas(limpiadas as int));
        r
    }
}

/// Lo que se dice al acabar una subida verificada.
pub fn mensaje_verificada(subidas: usize, limpiadas: usize, v: &VerificationResult) -> (r: String)
    ensures
        r@ == "Sync OK: "@ + texto::decimal(subidas as nat) + " rows"@ + texto_limpiadas(
            limpiadas as int,
        ) + texto_verificacion(*v),
{
    let r = mensaje_subida(subidas, limpiadas);
    let t = if v.matched {
        let t = texto::mas(
            " verificado: ".to_owned(),
            texto::texto_usize(v.actual_count).as_str(),
        );
        texto::mas(t, " filas confirmadas")
    } else {
        let t = texto::mas(
            " verificaci\u{f3}n: esperadas ".to_owned(),
            texto::texto_usize(v.expected_count).as_str(),
        );
        let t = texto::mas(t, ", encontradas ");
        texto::mas(t, texto::texto_usize(v.actual_count).as_str())
    };
    texto::mas(r, t.as_str())
}

// ---------------------------------------------------------------------------
// Horas
// ---------------------------------------------------------------------------

/// Un momento de un dia.
#[derive(Debug, Clone, Copy, PartialEq, Eq, Structural)]
pub struct Momento {
    pub dia: Fecha,
    /// Segundos desde la medianoche.
    pub segundo: u32,
    /// Va pasado el segundo.
    pub pasado: bool,
}

impl Momento {
    pub open spec fn valido(self) -> bool {
        self.dia.valida() && self.segundo < 86400
    }
}

/// La hora y el minuto de un texto `hh:mm`, si son numeros.
pub open spec fn hora_escrita(s: Seq<char>) -> Option<(int, int)> {
    let ps = texto::partes(s, ':');
    if ps.len() != 2 {
        None
    } else {
        match (
            texto::natural_leido(ps[0], u32::MAX as int),
            texto::natural_leido(ps[1], u32::MAX as int),
        ) {
            (Some(h), Some(m)) => Some((h, m)),
            _ => None,
        }
    }
}

fn leer_hora(s: &str) -> (r: Option<(u32, u32)>)
    ensures
        match r {
            Some(p) => hora_escrita(s@) == Some((p.0 as int, p.1 as int)),
            None => hora_escrita(s@) is None,
        },
{
    let ps = texto::partir(s, ':');
    assert(texto::textos(ps@).len() == ps@.len());
    if ps.len() != 2 {
        return None;
    }
    assert(texto::textos(ps@)[0] == ps@[0]@ && texto::textos(ps@)[1] == ps@[1]@);
    match (
        texto::leer_natural(ps[0].as_str(), u32::MAX as u64),
        texto::leer_natural(ps[1].as_str(), u32::MAX as u64),
    ) {
        (Some(h), Some(m)) => Some((h as u32, m as u32)),
        _ => None,
    }
}

/// El segundo del dia de una hora; el de ahora si la hora no existe.
pub open spec fn segundo_de(h: int, m: int, ahora: Momento) -> int {
    if h < 24 && m < 60 {
        h * 3600 + m * 60
    } else {
        ahora.segundo as int
    }
}

/// La proxima vez que se captura a una hora.
pub struct Proxima {
    pub dia: Fecha,
    pub segundo: u32,
    /// Horas enteras que faltan.
    pub horas: u64,
}

/// La siguiente vez que llega una hora: hoy si aun no ha llegado y si no manana. Nada
/// si la hora no se lee. Las horas que faltan no cuentan la parte del segundo que ya
/// paso, salvo que la hora no exista y sea un dia justo.
pub fn proxima_captura(hora: &str, ahora: Momento) -> (r: Option<Proxima>)
    requires
        ahora.valido(),
        ahora.dia.numero() < fecha::numero_max(),
    ensures
        match hora_escrita(hora@) {
            None => r is None,
            Some(p) => {
                let s = segundo_de(p.0, p.1, ahora);
                let existe = p.0 < 24 && p.1 < 60;
                let hoy = s > ahora.segundo;
                let faltan = s - ahora.segundo + (if hoy {
                    0int
                } else {
                    86400
                }) - (if ahora.pasado && existe {
                    1int
                } else {
                    0
                });
                r matches Some(x) && x.segundo == s && x.dia.valida() && x.dia.numero()
                    == ahora.dia.numero() + (if hoy {
                    0int
                } else {
                    1
                }) && x.horas == faltan / 3600
            },
        },
{
    match leer_hora(hora) {
        None => None,
        Some((h, m)) => {
            let existe = h < 24 && m < 60;
            let s: u32 = if existe {
                h * 3600 + m * 60
            } else {
                ahora.segundo
            };
            proof {
                fecha::lema_numero_en_rango(ahora.dia);
            }
            let resta: u64 = if ahora.pasado && existe {
                1
            } else {
                0
            };
            if s > ahora.segundo {
                let faltan: u64 = (s - ahora.segundo) as u64 - resta;
                Some(Proxima { dia: ahora.dia, segundo: s, horas: faltan / 3600 })
            } else {
                let dia = fecha::sumar_dias(ahora.dia, 1).unwrap();
                let faltan: u64 = s as u64 + 86400 - ahora.segundo as u64 - resta;
                Some(Proxima { dia, segundo: s, horas: faltan / 3600 })
            }
        },
    }
}

/// `aaaa-mm-ddThh:mm:ss`.
pub open spec fn texto_momento(dia: Fecha, segundo: int) -> Seq<char> {
    fecha::texto_iso(dia) + "T"@ + texto::decimal_ancho((segundo / 3600) as nat, 2) + ":"@
        + texto::decimal_ancho((segundo % 3600 / 60) as nat, 2) + ":"@ + texto::decimal_ancho(
        (segundo % 60) as nat,
        2,
    )
}

pub fn escribir_momento(dia: Fecha, segundo: u32) -> (r: String)
    requires
        dia.valida(),
    ensures
        r@ == texto_momento(dia, segundo as int),
{
    let s: u64 = segundo as u64;
    let r = texto::mas(fecha::fecha_iso(dia), "T");
    let r = texto::mas(texto::mas(r, texto::texto_ancho(s / 3600, 2).as_str()), ":");
    let r = texto::mas(texto::mas(r, texto::texto_ancho(s % 3600 / 60, 2).as_str()), ":");
    texto::mas(r, texto::texto_ancho(s % 60, 2).as_str())
}

/// La proxima captura a una hora que existe cae dentro de las siguientes
/// veinticuatro horas.
pub proof fn ley_proxima_en_un_dia(s: int, ahora: int)
    requires
        0 <= s < 86400,
        0 <= ahora < 86400,
    ensures
        ({
            let faltan = s - ahora + (if s > ahora {
                0int
            } else {
                86400
            });
            0 < faltan <= 86400
        }),
{
}

// ---------------------------------------------------------------------------
// Ordenes sueltas
// ---------------------------------------------------------------------------

/// El mes en curso hasta hoy, con la etiqueta del mes anterior; nada si el mes anterior
/// empieza antes del primer dia con datos.
pub fn rango_en_curso(hoy: Fecha) -> (r: Option<MonthRange>)
    requires
        hoy.valida(),
        hoy.mes == 1 ==> hoy.anho > fecha::ANHO_MIN,
    ensures
        r is Some <==> fecha::con_datos(fecha::rango_atras(hoy, 1)),
        r matches Some(m) ==> m.start == (Fecha { anho: hoy.anho, mes: hoy.mes, dia: 1 }) && m.end
            == hoy && m.label@ == fecha::rango_atras(hoy, 1).label,
{
    let v = fecha::generate_month_ranges(1, hoy);
    assert(fecha::meses_atras(hoy, 0) =~= Seq::<fecha::RangoVista>::empty());
    assert(fecha::rangos(v@).len() == v@.len());
    if v.len() == 0 {
        return None;
    }
    assert(fecha::rangos(v@)[0] == v@[0]@);
    Some(
        MonthRange {
            start: Fecha { anho: hoy.anho, mes: hoy.mes, dia: 1 },
            end: hoy,
            label: v[0].label.clone(),
        },
    )
}

/// Por que no vale el rango de una recaptura.
pub enum ErrorRango {
    Inicio,
    Fin,
    Orden,
}

/// El rango de una recaptura.
pub fn leer_recaptura(inicio: &str, fin: &str) -> (r: Result<(Fecha, Fecha), ErrorRango>)
    ensures
        match fecha::fecha_leida(inicio@, "%Y-%m-%d"@) {
            None => r matches Err(ErrorRango::Inicio),
            Some(a) => match fecha::fecha_leida(fin@, "%Y-%m-%d"@) {
                None => r matches Err(ErrorRango::Fin),
                Some(b) => if b.numero() < a.numero() {
                    r matches Err(ErrorRango::Orden)
                } else {
                    r matches Ok(p) && p == (a, b) && a.valida() && b.valida()
                },
            },
        },
{
    match fecha::leer_fecha(inicio, "%Y-%m-%d") {
        None => Err(ErrorRango::Inicio),
        Some(a) => match fecha::leer_fecha(fin, "%Y-%m-%d") {
            None => Err(ErrorRango::Fin),
            Some(b) => if fecha::anterior(b, a) {
                Err(ErrorRango::Orden)
            } else {
                Ok((a, b))
            },
        },
    }
}

/// Un nombre de articulo, a lo sumo treinta y cinco bytes; nada si el corte parte un
/// caracter.
pub open spec fn nombre_corto(n: Seq<char>) -> Option<Seq<char>> {
    if texto::bytes_de(n) > 35 {
        texto::corte_bytes(n, 0, 35)
    } else {
        Some(n)
    }
}

pub fn acortar_nombre(n: &str) -> (r: Option<String>)
    ensures
        match r {
            Some(s) => nombre_corto(n@) == Some(s@),
            None => nombre_corto(n@) is None,
        },
{
    if texto::largo_bytes(n) > 35 {
        texto::cortar_bytes(n, 0, 35)
    } else {
        Some(n.to_owned())
    }
}

// ---------------------------------------------------------------------------
// Leyes
// ---------------------------------------------------------------------------

/// Lo que detiene la sincronizacion y lo que no. La captura, el conteo y la subida que fallan
/// acaban en error; los demas pasos siguen pase lo que pase. Sin filas no se sube. Desde el
/// panel los checksums se calculan antes de subir, y desde la tarea, al final.
pub proof fn ley_sincronizacion(o: Origen, p: Paso, s: Suceso)
    ensures
        ({
            let r = siguiente(o, p, s);
            let panel = o == Origen::Panel;
            &&& r == Paso::Error && p != Paso::Error ==> s == Suceso::Mal && (p == Paso::Captura || p
                == Paso::Conteo || p == Paso::Subida)
            &&& s == Suceso::Mal && (p == Paso::Captura || p == Paso::Conteo || p == Paso::Subida)
                ==> r == Paso::Error
            &&& p == Paso::Captura && s != Suceso::Mal ==> r == Paso::Integridad
            &&& p == Paso::Integridad ==> r == (if panel {
                Paso::Checksums
            } else {
                Paso::Conteo
            })
            &&& p == Paso::Checksums ==> r == (if panel {
                Paso::Conteo
            } else {
                Paso::Fin
            })
            &&& p == Paso::Conteo && s == Suceso::Filas(0) ==> r == Paso::Vacio
            &&& p == Paso::Conteo && s is Filas && s->Filas_0 > 0 ==> r == Paso::Subida
            &&& p == Paso::Subida && s != Suceso::Mal ==> r == Paso::Verificacion
            &&& p == Paso::Verificacion ==> r == (if panel {
                Paso::Fin
            } else {
                Paso::Checksums
            })
            &&& p == Paso::Fin || p == Paso::Vacio || p == Paso::Error ==> r == p
        }),
{
}

/// La marca de subida no se adelanta nunca si lo recibido no es lo enviado o no se pudo ver; si
/// lo es, la tarea la adelanta siempre y el panel solo si envio algo.
pub proof fn ley_marca(o: Origen, subidas: int)
    requires
        subidas >= 0,
    ensures
        !adelanta(o, subidas, None),
        !adelanta(o, subidas, Some(false)),
        adelanta(Origen::Tarea, subidas, Some(true)),
        adelanta(Origen::Panel, subidas, Some(true)) <==> subidas > 0,
{
}

/// Lo que se limpio se dice solo si fue algo; lo verificado, con las filas recibidas, y si no
/// cuadra, con las dos cuentas.
pub proof fn ley_mensajes_de_subida(n: int, v: VerificationResult)
    ensures
        n <= 0 <==> texto_limpiadas(n).len() == 0,
        n > 0 ==> texto::contiene(texto_limpiadas(n), texto::decimal(n as nat)),
        texto::contiene(texto_verificacion(v), texto::decimal(v.actual_count as nat)),
        !v.matched ==> texto::contiene(
            texto_verificacion(v),
            texto::decimal(v.expected_count as nat),
        ),
        v.matched <==> texto::empieza(texto_verificacion(v), " verificado: "@),
{
    reveal_strlit(" + ");
    reveal_strlit(" verificado: ");
    reveal_strlit(" verificaci\u{f3}n: esperadas ");
    texto::ley_contiene(" + "@, texto::decimal(n as nat), " antiguos limpiados"@);
    let a = texto::decimal(v.actual_count as nat);
    let e = texto::decimal(v.expected_count as nat);
    let t = texto_verificacion(v);
    if v.matched {
        texto::ley_contiene(" verificado: "@, a, " filas confirmadas"@);
        assert(t.subrange(0, 13) =~= " verificado: "@);
    } else {
        let p = " verificaci\u{f3}n: esperadas "@;
        texto::ley_contiene(p, e, ", encontradas "@ + a);
        assert(p + e + (", encontradas "@ + a) =~= t);
        let nada = Seq::<char>::empty();
        texto::ley_contiene(p + e + ", encontradas "@, a, nada);
        assert(p + e + ", encontradas "@ + a + nada =~= t);
        if texto::empieza(t, " verificado: "@) {
            assert(t.subrange(0, 13)[9] == 'd');
            assert(t[9] == p[9]);
        }
    }
}

/// Una hora escrita `h:m` se lee con sus dos numeros; sin los dos puntos, o con mas, no.
pub proof fn ley_hora(h: nat, m: nat, s: Seq<char>)
    requires
        h <= u32::MAX,
        m <= u32::MAX,
    ensures
        hora_escrita(texto::decimal(h) + seq![':'] + texto::decimal(m)) == Some(
            (h as int, m as int),
        ),
        !s.contains(':') ==> hora_escrita(s) is None,
        hora_escrita(texto::decimal(h) + seq![':'] + texto::decimal(m) + seq![':'] + s) is None,
{
    let a = texto::decimal(h);
    let b = texto::decimal(m);
    texto::ley_decimal(h, u32::MAX as int);
    texto::ley_decimal(m, u32::MAX as int);
    let nada = Seq::<char>::empty();
    assert(!a.contains(':')) by {
        assert forall|i: int| 0 <= i < a.len() implies a[i] != ':' by {
            assert(texto::es_cifra(a[i]));
        }
    }
    assert(!b.contains(':')) by {
        assert forall|i: int| 0 <= i < b.len() implies b[i] != ':' by {
            assert(texto::es_cifra(b[i]));
        }
    }
    lema_parte_sola(a);
    lema_parte_sola(b);
    texto::lema_partes_suma(nada, a, b, ':');
    let ab = a + seq![':'] + b;
    assert(texto::partes(ab, ':') =~= seq![a, b]);
    texto::lema_partes_suma(nada, ab, s, ':');
    texto::ley_partes(s, ':');
    assert(texto::partes(ab + seq![':'] + s, ':').len() >= 3);
    if !s.contains(':') {
        lema_parte_sola(s);
    }
}

proof fn lema_parte_sola(s: Seq<char>)
    requires
        !s.contains(':'),
    ensures
        texto::partes(s, ':') == seq![s],
{
    let nada = Seq::<char>::empty();
    assert forall|i: int| 0 <= i < s.len() implies #[trigger] s[i] != ':' by {
        assert(s.contains(s[i]));
    }
    texto::lema_partes_tramo(nada, s, nada, ':');
    assert(s + nada =~= s);
    assert(nada + s =~= s);
}

/// El segundo de una hora crece con la hora y con el minuto; una hora que no existe es la de
/// ahora.
pub proof fn ley_segundo(h: int, m: int, ahora: Momento)
    requires
        0 <= h,
        0 <= m,
    ensures
        h < 24 && m < 60 ==> segundo_de(h, m, ahora) / 3600 == h && segundo_de(h, m, ahora) % 3600
            / 60 == m && segundo_de(h, m, ahora) % 60 == 0,
        h >= 24 || m >= 60 ==> segundo_de(h, m, ahora) == ahora.segundo,
{
    if h < 24 && m < 60 {
        let s = h * 3600 + m * 60;
        assert(s / 3600 == h);
        assert(s % 3600 == m * 60);
    }
}

/// Un momento se escribe con su dia, la hora, el minuto y el segundo.
pub proof fn ley_momento(dia: Fecha, h: int, m: int, s: int)
    requires
        0 <= h < 24,
        0 <= m < 60,
        0 <= s < 60,
    ensures
        texto_momento(dia, h * 3600 + m * 60 + s) == fecha::texto_iso(dia) + seq!['T']
            + texto::decimal_ancho(h as nat, 2) + seq![':'] + texto::decimal_ancho(m as nat, 2)
            + seq![':'] + texto::decimal_ancho(s as nat, 2),
{
    reveal_strlit("T");
    reveal_strlit(":");
    assert("T"@ =~= seq!['T']);
    assert(":"@ =~= seq![':']);
    let t = h * 3600 + m * 60 + s;
    assert(t / 3600 == h);
    assert(t % 3600 == m * 60 + s);
    assert(t % 3600 / 60 == m);
    assert(t % 60 == s);
}

/// Un nombre que cabe se deja entero; uno mayor se corta en treinta y cinco bytes, y es su
/// comienzo.
pub proof fn ley_nombre_corto(n: Seq<char>)
    ensures
        texto::bytes_de(n) <= 35 ==> nombre_corto(n) == Some(n),
        texto::bytes_de(n) > 35 && texto::es_ascii(n) ==> nombre_corto(n) == Some(n.take(35)),
        texto::bytes_de(n) > 35 ==> (nombre_corto(n) matches Some(t) ==> texto::empieza(n, t)
            && texto::bytes_de(t) == 35),
{
    texto::ley_corte_bytes(n, 0, 35);
    texto::ley_bytes(n, '0');
    if texto::bytes_de(n) > 35 {
        if texto::es_ascii(n) {
            assert(n.subrange(0, 35) =~= n.take(35));
        }
        if let Some(t) = nombre_corto(n) {
            let (i, j) = choose|i: int, j: int|
                0 <= i <= j <= n.len() && t == #[trigger] n.subrange(i, j) && texto::bytes_de(
                    n.take(i),
                ) == 0 && texto::bytes_de(n.take(j)) == 35;
            texto::lema_bytes_cotas(n.take(i));
            assert(i == 0);
            assert(t =~= n.take(j));
            assert(n.subrange(0, t.len() as int) =~= t);
        }
    }
}

} // verus!
