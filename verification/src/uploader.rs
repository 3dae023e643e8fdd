//! Subida a Supabase: que se sube, en que orden y que se hace cuando falla.

use crate::archivos;
use crate::config;
use crate::db;
use crate::fecha;
use crate::fecha::Fecha;
use crate::models;
use crate::models::Monto;
use crate::models::Venta;
use crate::models::VentaVista;
use crate::texto;
use vstd::prelude::*;

verus! {

// ---------------------------------------------------------------------------
// Repetidos
// ---------------------------------------------------------------------------

/// Lo que identifica una linea de un documento: su folio y su articulo.
pub open spec fn clave(v: VentaVista) -> (Seq<char>, Seq<char>) {
    (v.folio_unico, v.id_articulo)
}

/// Ninguna de las `n` primeras ventas tiene la clave de `v`.
pub open spec fn nueva_entre(vs: Seq<VentaVista>, n: int, v: VentaVista) -> bool {
    forall|j: int| 0 <= j < n ==> clave(#[trigger] vs[j]) != clave(v)
}

/// De las `n` primeras ventas, la primera de cada clave.
pub open spec fn sin_repetir(vs: Seq<VentaVista>, n: nat) -> Seq<VentaVista>
    decreases n,
{
    if n == 0 {
        seq![]
    } else {
        let previas = sin_repetir(vs, (n - 1) as nat);
        if nueva_entre(vs, n - 1, vs[n - 1]) {
            previas.push(vs[n - 1])
        } else {
            previas
        }
    }
}

fn es_nueva(vs: &Vec<Venta>, n: usize) -> (r: bool)
    requires
        n < vs@.len(),
    ensures
        r == nueva_entre(models::vistas(vs@), n as int, models::vistas(vs@)[n as int]),
{
    let ghost ms = models::vistas(vs@);
    let mut j: usize = 0;
    while j < n
        invariant
            0 <= j <= n < vs@.len(),
            ms == models::vistas(vs@),
            nueva_entre(ms, j as int, ms[n as int]),
        decreases n - j,
    {
        assert(ms[j as int] == vs@[j as int]@);
        assert(ms[n as int] == vs@[n as int]@);
        if texto::iguales(vs[j].folio_unico.as_str(), vs[n].folio_unico.as_str())
            && texto::iguales(vs[j].id_articulo.as_str(), vs[n].id_articulo.as_str()) {
            assert(clave(ms[j as int]) == clave(ms[n as int]));
            return false;
        }
        j = j + 1;
    }
    true
}

/// Deja la primera venta de cada folio y articulo, en su orden.
pub fn dedup_lote(vs: Vec<Venta>) -> (r: Vec<Venta>)
    ensures
        models::vistas(r@) == sin_repetir(models::vistas(vs@), vs@.len()),
{
    let ghost ms = models::vistas(vs@);
    let mut nuevas: Vec<bool> = Vec::new();
    let mut i: usize = 0;
    while i < vs.len()
        invariant
            0 <= i <= vs@.len(),
            ms == models::vistas(vs@),
            nuevas@.len() == i,
            forall|k: int| 0 <= k < i ==> #[trigger] nuevas@[k] == nueva_entre(ms, k, ms[k]),
        decreases vs@.len() - i,
    {
        nuevas.push(es_nueva(&vs, i));
        i = i + 1;
    }
    let ghost todas = vs@;
    let total: usize = nuevas.len();
    let mut r: Vec<Venta> = Vec::new();
    let mut n: usize = 0;
    assert(models::vistas(r@) =~= Seq::<VentaVista>::empty());
    for v in it: vs
        invariant
            it.seq() == todas,
            n == it.index(),
            total == nuevas@.len() == todas.len(),
            ms == models::vistas(todas),
            forall|k: int| 0 <= k < total ==> #[trigger] nuevas@[k] == nueva_entre(ms, k, ms[k]),
            models::vistas(r@) == sin_repetir(ms, n as nat),
    {
        assert(ms[n as int] == v@);
        let ghost antes = r@;
        if nuevas[n] {
            r.push(v);
            assert(models::vistas(r@) =~= models::vistas(antes).push(v@));
        }
        n = n + 1;
    }
    r
}

/// Entre lo que queda no hay dos ventas con la misma clave.
pub proof fn ley_sin_repetidos(vs: Seq<VentaVista>, n: nat)
    requires
        n <= vs.len(),
    ensures
        forall|i: int, j: int|
            0 <= i < j < sin_repetir(vs, n).len() ==> clave(#[trigger] sin_repetir(vs, n)[i])
                != clave(#[trigger] sin_repetir(vs, n)[j]),
    decreases n,
{
    if n > 0 {
        ley_sin_repetidos(vs, (n - 1) as nat);
        let previas = sin_repetir(vs, (n - 1) as nat);
        let todas = sin_repetir(vs, n);
        assert forall|i: int, j: int| 0 <= i < j < todas.len() implies clave(#[trigger] todas[i])
            != clave(#[trigger] todas[j]) by {
            if j < previas.len() {
                assert(todas[i] == previas[i] && todas[j] == previas[j]);
            } else {
                assert(todas[i] == previas[i]);
                lema_sale_de(vs, (n - 1) as nat, i);
            }
        }
    }
}

proof fn lema_sale_de(vs: Seq<VentaVista>, n: nat, i: int)
    requires
        n <= vs.len(),
        0 <= i < sin_repetir(vs, n).len(),
    ensures
        exists|k: int| 0 <= k < n && #[trigger] vs[k] == sin_repetir(vs, n)[i],
    decreases n,
{
    let previas = sin_repetir(vs, (n - 1) as nat);
    if i < previas.len() {
        assert(sin_repetir(vs, n)[i] == previas[i]);
        lema_sale_de(vs, (n - 1) as nat, i);
        let k = choose|k: int| 0 <= k < n - 1 && #[trigger] vs[k] == previas[i];
        assert(vs[k] == sin_repetir(vs, n)[i]);
    } else {
        assert(vs[n - 1] == sin_repetir(vs, n)[i]);
    }
}

/// Ninguna clave se pierde, y la venta que queda de cada una es la primera que la
/// tenia.
pub proof fn ley_claves_conservadas(vs: Seq<VentaVista>, n: nat, i: int)
    requires
        0 <= i < n <= vs.len(),
    ensures
        exists|k: int|
            0 <= k < sin_repetir(vs, n).len() && clave(#[trigger] sin_repetir(vs, n)[k]) == clave(
                vs[i],
            ),
        nueva_entre(vs, i, vs[i]) ==> sin_repetir(vs, n).contains(vs[i]),
    decreases n, i,
{
    let previas = sin_repetir(vs, (n - 1) as nat);
    let todas = sin_repetir(vs, n);
    if i < n - 1 {
        ley_claves_conservadas(vs, (n - 1) as nat, i);
        let k = choose|k: int|
            0 <= k < previas.len() && clave(#[trigger] previas[k]) == clave(vs[i]);
        assert(todas[k] == previas[k]);
        if nueva_entre(vs, i, vs[i]) {
            let q = choose|q: int| 0 <= q < previas.len() && previas[q] == vs[i];
            assert(todas[q] == vs[i]);
        }
    } else if nueva_entre(vs, n - 1, vs[n - 1]) {
        assert(todas[previas.len() as int] == vs[i]);
    } else {
        let j = choose|j: int| 0 <= j < n - 1 && clave(#[trigger] vs[j]) == clave(vs[n - 1]);
        ley_claves_conservadas(vs, (n - 1) as nat, j);
        let k = choose|k: int|
            0 <= k < previas.len() && clave(#[trigger] previas[k]) == clave(vs[j]);
        assert(todas[k] == previas[k]);
    }
}

// ---------------------------------------------------------------------------
// Un envio
// ---------------------------------------------------------------------------

/// Las credenciales son las de muestra.
pub open spec fn de_muestra(url: Seq<char>, key: Seq<char>) -> bool {
    texto::contiene(url, "TU_SUPABASE"@) || texto::contiene(key, "TU_ANON"@)
}

pub fn sin_credenciales(url: &str, key: &str) -> (r: bool)
    ensures
        r == de_muestra(url@, key@),
{
    proof {
        reveal_strlit("TU_SUPABASE");
        reveal_strlit("TU_ANON");
    }
    texto::contiene_texto(url, "TU_SUPABASE") || texto::contiene_texto(key, "TU_ANON")
}

/// La direccion de la tabla.
pub open spec fn direccion_tabla(url: Seq<char>) -> Seq<char> {
    url + "/rest/v1/"@ + config::SUPABASE_TABLE@
}

pub fn endpoint(url: &str) -> (r: String)
    ensures
        r@ == direccion_tabla(url@),
{
    texto::mas(texto::mas(url.to_owned(), "/rest/v1/"), config::SUPABASE_TABLE)
}

/// Veces que se intenta un envio.
pub const INTENTOS: u32 = 3;

/// Lo que paso con un envio.
pub enum Respuesta {
    /// No llego a enviarse.
    SinEnvio(String),
    /// Se envio, pero no se pudo leer la respuesta.
    SinLectura(String),
    /// Codigo de estado, el estado escrito y el texto de la respuesta.
    Estado { codigo: u16, estado: String, texto: String },
}

/// Que hacer tras un envio.
pub enum Decision {
    Hecho,
    /// Intentarlo de nuevo pasados unos milisegundos.
    Reintentar(u64),
    Fallar(String),
}

pub open spec fn exito(codigo: int) -> bool {
    200 <= codigo <= 299
}

/// Errores que pueden pasarse solos: los del servidor y el exceso de peticiones.
pub open spec fn transitorio(codigo: int) -> bool {
    500 <= codigo <= 599 || codigo == 429
}

/// Que hacer tras el intento `intento`. Los fallos de red se reintentan a los 500 y
/// 1000 milisegundos, los del servidor a los 1000 y 2000; los demas no se reintentan.
pub open spec fn decision(intento: u32, r: Respuesta) -> (bool, int, Seq<char>) {
    match r {
        Respuesta::SinEnvio(e) => if intento < INTENTOS {
            (false, 500 * intento, seq![])
        } else {
            (false, -1, "Supabase request failed: "@ + e@)
        },
        Respuesta::SinLectura(e) => if intento < INTENTOS {
            (false, 500 * intento, seq![])
        } else {
            (false, -1, "Supabase read response failed: "@ + e@)
        },
        Respuesta::Estado { codigo, estado, texto } => if exito(codigo as int) {
            (true, 0, seq![])
        } else if transitorio(codigo as int) && intento < INTENTOS {
            (false, 1000 * intento, seq![])
        } else {
            (false, -1, "Supabase "@ + estado@ + ": "@ + texto@)
        },
    }
}

/// Una decision, vista como si se acabo, cuanto se espera (o -1) y por que se falla.
pub open spec fn vista_decision(d: Decision) -> (bool, int, Seq<char>) {
    match d {
        Decision::Hecho => (true, 0, seq![]),
        Decision::Reintentar(ms) => (false, ms as int, seq![]),
        Decision::Fallar(m) => (false, -1, m@),
    }
}

pub fn decidir(intento: u32, r: Respuesta) -> (d: Decision)
    requires
        1 <= intento <= INTENTOS,
    ensures
        vista_decision(d) == decision(intento, r),
        d is Reintentar ==> intento < INTENTOS,
{
    match r {
        Respuesta::SinEnvio(e) => if intento < INTENTOS {
            Decision::Reintentar(500 * intento as u64)
        } else {
            Decision::Fallar(texto::mas("Supabase request failed: ".to_owned(), e.as_str()))
        },
        Respuesta::SinLectura(e) => if intento < INTENTOS {
            Decision::Reintentar(500 * intento as u64)
        } else {
            Decision::Fallar(texto::mas("Supabase read response failed: ".to_owned(), e.as_str()))
        },
        Respuesta::Estado { codigo, estado, texto: txt } => {
            if 200 <= codigo && codigo <= 299 {
                return Decision::Hecho;
            }
            if ((500 <= codigo && codigo <= 599) || codigo == 429) && intento < INTENTOS {
                return Decision::Reintentar(1000 * intento as u64);
            }
            let m = texto::mas(texto::mas("Supabase ".to_owned(), estado.as_str()), ": ");
            Decision::Fallar(texto::mas(m, txt.as_str()))
        },
    }
}

/// Un rechazo de la peticion no se reintenta nunca; el ultimo intento no se
/// reintenta en ningun caso.
pub proof fn ley_reintentos(intento: u32, r: Respuesta)
    requires
        1 <= intento <= INTENTOS,
    ensures
        r matches Respuesta::Estado { codigo, .. } ==> (400 <= codigo <= 499 && codigo != 429
            ==> decision(intento, r).1 == -1),
        intento == INTENTOS ==> decision(intento, r).0 || decision(intento, r).1 == -1,
        0 <= decision(intento, r).1 ==> decision(intento, r).1 <= 2000,
{
}

// ---------------------------------------------------------------------------
// Filtros
// ---------------------------------------------------------------------------

/// El dia de numero `n`.
pub open spec fn dia_de_numero(n: int) -> Fecha {
    choose|f: Fecha| f.valida() && #[trigger] f.numero() == n
}

/// El primer dia que se conserva; ninguno si se conserva todo.
pub open spec fn corte(retention_days: int, hoy: Fecha) -> Option<Fecha> {
    if retention_days == 0 {
        None
    } else {
        Some(dia_de_numero(hoy.numero() - retention_days))
    }
}

pub fn fecha_corte(retention_days: u32, hoy: Fecha) -> (r: Option<Fecha>)
    requires
        hoy.valida(),
        hoy.numero() - retention_days >= fecha::numero_min(),
    ensures
        r == corte(retention_days as int, hoy),
        match r {
            None => retention_days == 0,
            Some(f) => retention_days > 0 && f.valida() && f.numero() == hoy.numero()
                - retention_days,
        },
{
    if retention_days == 0 {
        return None;
    }
    proof {
        fecha::lema_numero_en_rango(hoy);
    }
    let f = fecha::sumar_dias(hoy, -(retention_days as i64)).unwrap();
    proof {
        let g = dia_de_numero(hoy.numero() - retention_days);
        fecha::lema_orden(f, g);
        fecha::lema_orden(g, f);
    }
    Some(f)
}

/// Los siete primeros caracteres de la fecha: su mes.
pub open spec fn mes_corte(f: Fecha) -> Seq<char> {
    fecha::texto_iso(f).take(7)
}

pub fn texto_mes_corte(f: Fecha) -> (r: String)
    requires
        f.valida(),
    ensures
        r@ == mes_corte(f),
{
    let t = fecha::fecha_iso(f);
    proof {
        lema_largo_iso(f);
    }
    let r = texto::cadena(&texto::caracteres(t.as_str()), 0, 7);
    assert(r@ =~= t@.take(7));
    r
}

/// El primer mes que se conserva; ninguno si se conserva todo.
pub open spec fn primer_mes(retention_days: int, hoy: Fecha) -> Option<Seq<char>> {
    match corte(retention_days, hoy) {
        Some(f) => Some(mes_corte(f)),
        None => None,
    }
}

pub fn mes_de_corte(retention_days: u32, hoy: Fecha) -> (r: Option<String>)
    requires
        hoy.valida(),
        hoy.numero() - retention_days >= fecha::numero_min(),
    ensures
        models::texto_opcional(r) == primer_mes(retention_days as int, hoy),
{
    match fecha_corte(retention_days, hoy) {
        Some(f) => Some(texto_mes_corte(f)),
        None => None,
    }
}

proof fn lema_largo_ancho(n: nat, w: int)
    ensures
        texto::decimal_ancho(n, w).len() >= w,
{
}

proof fn lema_largo_iso(f: Fecha)
    ensures
        fecha::texto_iso(f).len() >= 10,
{
    reveal_strlit("-");
    reveal_strlit("+");
    lema_largo_ancho(f.anho as nat, 4);
    lema_largo_ancho((-f.anho) as nat, 4);
    lema_largo_ancho(f.mes as nat, 2);
    lema_largo_ancho(f.dia as nat, 2);
}

/// Lo que se sube: lo capturado tras la ultima subida y no anterior al corte.
pub open spec fn condicion(last_sync: Option<Seq<char>>, corte: Option<Seq<char>>) -> Seq<char> {
    match (desde_subida(last_sync), corte) {
        (None, None) => seq![],
        (None, Some(c)) => "WHERE mes_ref >= '"@ + c + "'"@,
        (Some(s), None) => "WHERE capturado_en > '"@ + s + "'"@,
        (Some(s), Some(c)) => "WHERE capturado_en > '"@ + s + "'"@ + " AND mes_ref >= '"@ + c
            + "'"@,
    }
}

/// La ultima subida, si hubo.
pub open spec fn desde_subida(last_sync: Option<Seq<char>>) -> Option<Seq<char>> {
    match last_sync {
        Some(s) => if s.len() == 0 {
            None
        } else {
            Some(s)
        },
        None => None,
    }
}

pub open spec fn vista_opcion(o: Option<&str>) -> Option<Seq<char>> {
    match o {
        Some(s) => Some(s@),
        None => None,
    }
}

/// La condicion de la consulta de lo que se sube.
pub fn base_where(last_sync: Option<&str>, corte: Option<&str>) -> (r: String)
    ensures
        r@ == condicion(vista_opcion(last_sync), vista_opcion(corte)),
{
    let sync = match last_sync {
        Some(s) => if s.unicode_len() > 0 {
            Some(texto::mas(texto::mas("WHERE capturado_en > '".to_owned(), s), "'"))
        } else {
            None
        },
        None => None,
    };
    match (sync, corte) {
        (None, None) => String::new(),
        (None, Some(c)) => texto::mas(texto::mas("WHERE mes_ref >= '".to_owned(), c), "'"),
        (Some(w), None) => w,
        (Some(w), Some(c)) => texto::mas(texto::mas(texto::mas(w, " AND mes_ref >= '"), c), "'"),
    }
}

/// Lo que se sube, dados los dias que se conservan, el dia de hoy y la ultima subida.
pub open spec fn filtro_subida(
    retention_days: int,
    hoy: Fecha,
    last_sync: Option<Seq<char>>,
) -> Seq<char> {
    condicion(last_sync, primer_mes(retention_days, hoy))
}

/// La condicion de lo que se sube. Es la misma para subirlo, para contarlo sin subirlo y
/// para revisarlo antes.
pub fn filtro(retention_days: u32, hoy: Fecha, last_sync: Option<&str>) -> (r: String)
    requires
        hoy.valida(),
        hoy.numero() - retention_days >= fecha::numero_min(),
    ensures
        r@ == filtro_subida(retention_days as int, hoy, vista_opcion(last_sync)),
{
    match mes_de_corte(retention_days, hoy) {
        Some(m) => base_where(last_sync, Some(m.as_str())),
        None => base_where(last_sync, None),
    }
}

/// Como se cuentan las filas que cumplen una condicion.
pub fn consulta_cuenta(condicion: &str) -> (r: String)
    ensures
        r@ == "SELECT COUNT(*) FROM ventas "@ + condicion@,
{
    texto::mas("SELECT COUNT(*) FROM ventas ".to_owned(), condicion)
}

// ---------------------------------------------------------------------------
// La subida
// ---------------------------------------------------------------------------

/// Filas que van en cada envio.
pub const FILAS_LOTE: u64 = 500;

/// Envios que hacen falta para `total` filas.
pub open spec fn lotes(total: int) -> int {
    (total + FILAS_LOTE - 1) / (FILAS_LOTE as int)
}

pub fn total_lotes(total: u64) -> (r: u64)
    ensures
        r == lotes(total as int),
{
    if total % FILAS_LOTE == 0 {
        total / FILAS_LOTE
    } else {
        total / FILAS_LOTE + 1
    }
}

/// En que esta la subida.
#[derive(Debug, Clone, Copy, PartialEq, Eq, Structural)]
pub enum Fase {
    /// Contar las claves repetidas.
    Duplicados,
    /// Vaciar en destino lo que se va a subir de nuevo.
    Purga,
    /// Contar lo que se sube.
    Conteo,
    /// Enviar las filas desde la `off`.
    Envio { off: u64 },
    /// Quitar en destino lo anterior al corte.
    Limpieza,
    Fin,
    Fallo,
}

/// Como va la subida.
#[derive(Debug, Clone, Copy, PartialEq, Eq, Structural)]
pub struct Subida {
    pub fase: Fase,
    /// Se sube todo, no solo lo nuevo.
    pub completa: bool,
    pub total: u64,
    pub subidas: u64,
    pub limpiadas: u64,
}

/// Lo que dio un paso: una cuenta o un error.
#[derive(Debug, Clone, Copy, PartialEq, Eq, Structural)]
pub enum Cuenta {
    Numero(u64),
    Error,
}

/// La subida es completa si no hubo otra antes.
pub fn subida_nueva(last_sync: Option<&str>) -> (r: Subida)
    ensures
        r == (Subida {
            fase: Fase::Duplicados,
            completa: desde_subida(vista_opcion(last_sync)) is None,
            total: 0,
            subidas: 0,
            limpiadas: 0,
        }),
        r.coherente(),
{
    let completa = match last_sync {
        Some(s) => s.unicode_len() == 0,
        None => true,
    };
    Subida { fase: Fase::Duplicados, completa, total: 0, subidas: 0, limpiadas: 0 }
}

impl Subida {
    pub open spec fn coherente(self) -> bool {
        match self.fase {
            Fase::Envio { off } => {
                &&& off < self.total <= i64::MAX
                &&& off % FILAS_LOTE == 0
                &&& self.subidas <= off
            },
            Fase::Duplicados | Fase::Purga | Fase::Conteo => self.subidas == 0 && self.total == 0
                && self.limpiadas == 0,
            _ => true,
        }
    }

    pub open spec fn en(self, fase: Fase) -> Subida {
        Subida { fase, ..self }
    }

    /// Lo que sigue. Con claves repetidas no se sube nada. Si la subida es completa se
    /// vacia antes el destino. La limpieza final no hace fallar la subida.
    pub open spec fn tras(self, c: Cuenta) -> Subida {
        match (self.fase, c) {
            (Fase::Duplicados, Cuenta::Numero(n)) => self.en(
                if n > 0 {
                    Fase::Fallo
                } else if self.completa {
                    Fase::Purga
                } else {
                    Fase::Conteo
                },
            ),
            (Fase::Purga, Cuenta::Numero(_)) => self.en(Fase::Conteo),
            (Fase::Conteo, Cuenta::Numero(n)) => if n == 0 {
                self.en(Fase::Fin)
            } else {
                Subida { fase: Fase::Envio { off: 0 }, total: n, ..self }
            },
            (Fase::Envio { off }, Cuenta::Numero(n)) => Subida {
                fase: if off + FILAS_LOTE < self.total {
                    Fase::Envio { off: (off + FILAS_LOTE) as u64 }
                } else {
                    Fase::Limpieza
                },
                subidas: (self.subidas + n) as u64,
                ..self
            },
            (Fase::Limpieza, Cuenta::Numero(n)) => Subida {
                fase: Fase::Fin,
                limpiadas: n,
                ..self
            },
            (Fase::Limpieza, Cuenta::Error) => self.en(Fase::Fin),
            (Fase::Fin, _) => self,
            _ => self.en(Fase::Fallo),
        }
    }

    pub fn seguir(self, c: Cuenta) -> (r: Subida)
        requires
            self.coherente(),
            c matches Cuenta::Numero(n) ==> n <= i64::MAX && (self.fase is Envio ==> n
                <= FILAS_LOTE),
        ensures
            r == self.tras(c),
            r.coherente(),
    {
        match c {
            Cuenta::Numero(n) => match self.fase {
                Fase::Duplicados => {
                    let fase = if n > 0 {
                        Fase::Fallo
                    } else if self.completa {
                        Fase::Purga
                    } else {
                        Fase::Conteo
                    };
                    Subida { fase, ..self }
                },
                Fase::Purga => Subida { fase: Fase::Conteo, ..self },
                Fase::Conteo => if n == 0 {
                    Subida { fase: Fase::Fin, ..self }
                } else {
                    Subida { fase: Fase::Envio { off: 0 }, total: n, ..self }
                },
                Fase::Envio { off } => {
                    let fase = if off + FILAS_LOTE < self.total {
                        Fase::Envio { off: off + FILAS_LOTE }
                    } else {
                        Fase::Limpieza
                    };
                    Subida { fase, subidas: self.subidas + n, ..self }
                },
                Fase::Limpieza => Subida { fase: Fase::Fin, limpiadas: n, ..self },
                Fase::Fin => self,
                Fase::Fallo => self,
            },
            Cuenta::Error => match self.fase {
                Fase::Limpieza => Subida { fase: Fase::Fin, ..self },
                Fase::Fin => self,
                _ => Subida { fase: Fase::Fallo, ..self },
            },
        }
    }

    /// El envio en curso, contando desde uno.
    pub fn numero_envio(&self) -> (r: u64)
        requires
            self.coherente(),
        ensures
            r == (match self.fase {
                Fase::Envio { off } => off / FILAS_LOTE + 1,
                _ => 0,
            }),
    {
        match self.fase {
            Fase::Envio { off } => off / FILAS_LOTE + 1,
            _ => 0,
        }
    }

    /// Pasos que quedan, a lo sumo.
    pub open spec fn medida(self) -> int {
        match self.fase {
            Fase::Duplicados => i64::MAX + 4,
            Fase::Purga => i64::MAX + 3,
            Fase::Conteo => i64::MAX + 2,
            Fase::Envio { off } => self.total - off + 1,
            Fase::Limpieza => 1,
            _ => 0,
        }
    }
}

/// La subida acaba siempre, bien o mal, y en ese orden: repetidos, purga, cuenta,
/// envios y limpieza.
pub proof fn ley_subida_acaba(s: Subida, c: Cuenta)
    requires
        s.coherente(),
        c matches Cuenta::Numero(n) ==> n <= i64::MAX,
        !(s.fase is Fin) && !(s.fase is Fallo),
    ensures
        0 <= s.tras(c).medida() < s.medida(),
{
}

/// Se purga el destino solo en una subida completa, y nunca tras el primer envio.
pub proof fn ley_purga_antes(s: Subida, c: Cuenta)
    requires
        s.coherente(),
        s.tras(c).fase is Purga,
    ensures
        s.completa,
        s.fase is Duplicados || s.fase is Purga,
        s.tras(c).subidas == 0,
{
}

/// En una subida completa no se cuenta ni se envia nada sin haber purgado antes el destino.
pub proof fn ley_completa_purga(s: Subida, c: Cuenta)
    requires
        s.coherente(),
        s.completa,
    ensures
        s.fase is Duplicados && c == Cuenta::Numero(0) ==> s.tras(c).fase is Purga,
        s.tras(c).fase is Conteo ==> s.fase is Purga && c is Numero,
        s.tras(c).fase is Envio ==> s.fase is Conteo || s.fase is Envio,
{
}

/// Cada envio empieza donde acaba el anterior, el primero en la fila cero y el
/// ultimo llega a la ultima fila: son tantos como hacen falta y cubren todas.
pub proof fn ley_envios(s: Subida, n: u64)
    requires
        s.coherente(),
        s.fase is Envio,
    ensures
        ({
            let off = s.fase->off;
            let sigue = s.tras(Cuenta::Numero(n)).fase;
            &&& off / FILAS_LOTE + 1 <= lotes(s.total as int)
            &&& sigue is Limpieza <==> off / FILAS_LOTE + 1 == lotes(s.total as int)
            &&& sigue is Limpieza <==> off + FILAS_LOTE >= s.total
            &&& sigue matches Fase::Envio { off: o } ==> o == off + FILAS_LOTE
        }),
{
    let off = s.fase->off as int;
    let k = off / 500;
    assert(off == 500 * k);
}

/// Las filas del envio que empieza en la `off`.
pub open spec fn filas_envio(filas: Seq<VentaVista>, off: int) -> Seq<VentaVista> {
    filas.subrange(
        off,
        if off + FILAS_LOTE < filas.len() {
            off + FILAS_LOTE
        } else {
            filas.len() as int
        },
    )
}

/// La subida tras los envios que quedan, si todos salen bien: de cada uno se suben las
/// filas que no se repiten.
pub open spec fn tras_envios(filas: Seq<VentaVista>, s: Subida) -> Subida
    decreases
            (match s.fase {
                Fase::Envio { off } => s.total - off,
                _ => 0,
            }),
{
    match s.fase {
        Fase::Envio { off } => if off < s.total {
            let fs = filas_envio(filas, off as int);
            tras_envios(filas, s.tras(Cuenta::Numero(sin_repetir(fs, fs.len()).len() as u64)))
        } else {
            s
        },
        _ => s,
    }
}

/// Los envios que quedan, si todos salen bien.
pub open spec fn envios_pendientes(filas: Seq<VentaVista>, s: Subida) -> int
    decreases
            (match s.fase {
                Fase::Envio { off } => s.total - off,
                _ => 0,
            }),
{
    match s.fase {
        Fase::Envio { off } => if off < s.total {
            let fs = filas_envio(filas, off as int);
            1 + envios_pendientes(
                filas,
                s.tras(Cuenta::Numero(sin_repetir(fs, fs.len()).len() as u64)),
            )
        } else {
            0
        },
        _ => 0,
    }
}

/// No hay dos filas con la misma clave.
pub open spec fn distintas(filas: Seq<VentaVista>) -> bool {
    forall|i: int, j: int|
        0 <= i < j < filas.len() ==> clave(#[trigger] filas[i]) != clave(#[trigger] filas[j])
}

proof fn lema_distintas(vs: Seq<VentaVista>, n: nat)
    requires
        distintas(vs),
        n <= vs.len(),
    ensures
        sin_repetir(vs, n) == vs.take(n as int),
    decreases n,
{
    if n == 0 {
        assert(vs.take(0) =~= Seq::<VentaVista>::empty());
    } else {
        lema_distintas(vs, (n - 1) as nat);
        assert(nueva_entre(vs, n - 1, vs[n - 1]));
        assert(vs.take(n as int) =~= vs.take(n - 1).push(vs[n - 1]));
    }
}

proof fn lema_tras_envios(filas: Seq<VentaVista>, s: Subida)
    requires
        distintas(filas),
        s.coherente(),
        s.fase is Envio,
        s.total == filas.len(),
        s.subidas == s.fase->off,
    ensures
        tras_envios(filas, s).fase is Limpieza,
        tras_envios(filas, s).subidas == filas.len(),
        envios_pendientes(filas, s) == lotes(s.total - s.fase->off),
    decreases s.total - s.fase->off,
{
    reveal_with_fuel(tras_envios, 2);
    reveal_with_fuel(envios_pendientes, 2);
    let off = s.fase->off as int;
    let fs = filas_envio(filas, off);
    lema_envio_distinto(filas, off);
    lema_distintas(fs, fs.len());
    assert(fs.take(fs.len() as int) =~= fs);
    let t = s.tras(Cuenta::Numero(fs.len() as u64));
    if t.fase is Envio {
        lema_tras_envios(filas, t);
    }
}

/// Las filas y los envios que cuenta un simulacro.
pub open spec fn simulacro(filas: int) -> (int, int) {
    (filas, lotes(filas))
}

/// La subida cuando ya se ha visto que no hay claves repetidas, se ha vaciado el destino si
/// tocaba y se han contado las filas.
pub open spec fn subida_contada(completa: bool, purgadas: u64, filas: int) -> Subida {
    let s = Subida { fase: Fase::Duplicados, completa, total: 0, subidas: 0, limpiadas: 0 };
    let s = s.tras(Cuenta::Numero(0));
    let s = if completa {
        s.tras(Cuenta::Numero(purgadas))
    } else {
        s
    };
    s.tras(Cuenta::Numero(filas as u64))
}

/// El simulacro cuenta lo que se sube: si las filas que cumplen el filtro no tienen claves
/// repetidas y nada falla, se suben tantas como cuenta, en tantos envios como cuenta.
pub proof fn ley_simulacro(filas: Seq<VentaVista>, completa: bool, purgadas: u64)
    requires
        distintas(filas),
        filas.len() <= i64::MAX,
    ensures
        ({
            let s = subida_contada(completa, purgadas, filas.len() as int);
            let r = tras_envios(filas, s);
            &&& r.subidas == simulacro(filas.len() as int).0
            &&& envios_pendientes(filas, s) == simulacro(filas.len() as int).1
            &&& r.fase is Limpieza || (filas.len() == 0 && r.fase is Fin)
        }),
{
    if filas.len() > 0 {
        lema_tras_envios(filas, subida_contada(completa, purgadas, filas.len() as int));
    }
}

/// Por que fallo una subida con claves repetidas.
pub fn mensaje_repetidos(n: i64) -> (r: String)
    ensures
        r@ == "Hay "@ + texto::decimal_signo(n as int)
            + " pares (folio,SKU) duplicados en BD local. Ejecuta 'Reprocesar raw' primero para deduplicar."@,
{
    let r = texto::mas("Hay ".to_owned(), texto::texto_i64(n).as_str());
    texto::mas(
        r,
        " pares (folio,SKU) duplicados en BD local. Ejecuta 'Reprocesar raw' primero para deduplicar.",
    )
}

/// Por que fallo un envio: cual era, de cuantos, el avance y la causa.
pub fn mensaje_envio(envio: u64, total: u64, avance: &str, causa: &str) -> (r: String)
    ensures
        r@ == "Error en batch "@ + texto::decimal(envio as nat) + "/"@ + texto::decimal(
            total as nat,
        ) + " ("@ + avance@ + "%): "@ + causa@,
{
    let r = texto::mas("Error en batch ".to_owned(), texto::texto_u64(envio).as_str());
    let r = texto::mas(texto::mas(r, "/"), texto::texto_u64(total).as_str());
    let r = texto::mas(texto::mas(r, " ("), avance);
    texto::mas(texto::mas(r, "%): "), causa)
}

// ---------------------------------------------------------------------------
// Lo anterior al corte
// ---------------------------------------------------------------------------

/// El total que anuncia una cabecera `content-range`: lo que sigue a la primera
/// barra, hasta la siguiente, si es un numero; si no, cero.
pub open spec fn total_anunciado(rango: Seq<char>) -> int {
    let ps = texto::partes(rango, '/');
    if ps.len() < 2 {
        0
    } else {
        match texto::natural_leido(ps[1], usize::MAX as int) {
            Some(n) => n,
            None => 0,
        }
    }
}

pub fn total_de_rango(rango: &str) -> (r: usize)
    ensures
        r == total_anunciado(rango@),
{
    let ps = texto::partir(rango, '/');
    assert(texto::textos(ps@).len() == ps@.len());
    if ps.len() < 2 {
        return 0;
    }
    assert(texto::textos(ps@)[1] == ps@[1]@);
    match texto::leer_natural(ps[1].as_str(), usize::MAX as u64) {
        Some(n) => n as usize,
        None => 0,
    }
}

/// Como se piden los identificadores anteriores al corte, de quinientos en
/// quinientos.
pub open spec fn consulta_ids(url: Seq<char>, mes: Seq<char>) -> Seq<char> {
    direccion_tabla(url) + "?mes_ref=lt."@ + mes + "&select=id&limit=500"@
}

pub fn url_ids(url: &str, mes: &str) -> (r: String)
    ensures
        r@ == consulta_ids(url@, mes@),
{
    let r = texto::mas(texto::mas(endpoint(url), "?mes_ref=lt."), mes);
    texto::mas(r, "&select=id&limit=500")
}

/// Como se cuentan los registros anteriores al corte.
pub fn url_conteo(url: &str, mes: &str) -> (r: String)
    ensures
        r@ == direccion_tabla(url@) + "?mes_ref=lt."@ + mes@ + "&select=id&limit=1"@,
{
    let r = texto::mas(texto::mas(endpoint(url), "?mes_ref=lt."), mes);
    texto::mas(r, "&select=id&limit=1")
}

/// Como se borran unos registros por su identificador.
pub open spec fn consulta_borrado(url: Seq<char>, ids: Seq<Seq<char>>) -> Seq<char> {
    direccion_tabla(url) + "?id=in.("@ + texto::unido(ids, ","@) + ")&select=id"@
}

pub fn url_borrado(url: &str, ids: &Vec<String>) -> (r: String)
    ensures
        r@ == consulta_borrado(url@, texto::textos(ids@)),
{
    let lista = texto::unir(ids, ",");
    let r = texto::mas(texto::mas(endpoint(url), "?id=in.("), lista.as_str());
    texto::mas(r, ")&select=id")
}

/// En que esta la limpieza de lo anterior al corte.
#[derive(Debug, Clone, Copy, PartialEq, Eq, Structural)]
pub enum Limpieza {
    /// Contar lo que sobra.
    Contar,
    /// Pedir los identificadores de unos cuantos.
    Pedir,
    /// Borrarlos.
    Borrar,
    Fin,
}

/// Lo que sigue: se pide y se borra mientras quede algo y se vaya borrando.
pub open spec fn tras_limpieza(e: Limpieza, c: Cuenta) -> Limpieza {
    match (e, c) {
        (Limpieza::Fin, _) => e,
        (_, Cuenta::Error) => Limpieza::Fin,
        (_, Cuenta::Numero(n)) => if n == 0 {
            Limpieza::Fin
        } else if e == Limpieza::Pedir {
            Limpieza::Borrar
        } else {
            Limpieza::Pedir
        },
    }
}

/// Lo que sigue y cuanto va borrado.
pub fn seguir_limpieza(e: Limpieza, borrados: u64, c: Cuenta) -> (r: (Limpieza, u64))
    requires
        c matches Cuenta::Numero(n) ==> borrados + n <= u64::MAX,
    ensures
        r.0 == tras_limpieza(e, c),
        r.1 == borrados + (if e == Limpieza::Borrar && c is Numero {
            c->Numero_0 as int
        } else {
            0
        }),
{
    match c {
        Cuenta::Error => (Limpieza::Fin, borrados),
        Cuenta::Numero(n) => match e {
            Limpieza::Fin => (Limpieza::Fin, borrados),
            Limpieza::Contar => if n == 0 {
                (Limpieza::Fin, borrados)
            } else {
                (Limpieza::Pedir, borrados)
            },
            Limpieza::Pedir => if n == 0 {
                (Limpieza::Fin, borrados)
            } else {
                (Limpieza::Borrar, borrados)
            },
            Limpieza::Borrar => if n == 0 {
                (Limpieza::Fin, borrados)
            } else {
                (Limpieza::Pedir, borrados + n)
            },
        },
    }
}

/// De las filas de un destino, dadas por su identificador y su mes, las anteriores al mes
/// `mes`.
pub open spec fn antiguas(t: Map<Seq<char>, Seq<char>>, mes: Seq<char>) -> Set<Seq<char>> {
    t.dom().filter(|id: Seq<char>| archivos::antes(t[id], mes))
}

/// El destino da `ids` cuando se le piden identificadores anteriores al mes `mes`: los de
/// quinientas filas, las que sean, o los de todas si no hay tantas.
pub open spec fn es_pedido(
    t: Map<Seq<char>, Seq<char>>,
    mes: Seq<char>,
    ids: Seq<Seq<char>>,
) -> bool {
    &&& ids.no_duplicates()
    &&& ids.to_set().subset_of(antiguas(t, mes))
    &&& ids.len() == (if antiguas(t, mes).len() < 500 {
        antiguas(t, mes).len()
    } else {
        500
    })
}

/// El destino tras borrar los identificadores de cada ronda.
pub open spec fn tras_rondas(
    t: Map<Seq<char>, Seq<char>>,
    rondas: Seq<Seq<Seq<char>>>,
) -> Map<Seq<char>, Seq<char>>
    decreases rondas.len(),
{
    if rondas.len() == 0 {
        t
    } else {
        tras_rondas(t, rondas.drop_last()).remove_keys(rondas.last().to_set())
    }
}

/// Cada ronda borra lo que el destino dio, que es algo.
pub open spec fn rondas_validas(
    t: Map<Seq<char>, Seq<char>>,
    mes: Seq<char>,
    rondas: Seq<Seq<Seq<char>>>,
) -> bool
    decreases rondas.len(),
{
    rondas.len() == 0 || {
        &&& rondas_validas(t, mes, rondas.drop_last())
        &&& rondas.last().len() > 0
        &&& es_pedido(tras_rondas(t, rondas.drop_last()), mes, rondas.last())
    }
}

/// Como va la limpieza, contadas `total` filas y hechas unas rondas, y cuantas van borradas.
pub open spec fn limpieza_tras(total: int, rondas: Seq<Seq<Seq<char>>>) -> (Limpieza, int)
    decreases rondas.len(),
{
    if rondas.len() == 0 {
        (tras_limpieza(Limpieza::Contar, Cuenta::Numero(total as u64)), 0)
    } else {
        let p = limpieza_tras(total, rondas.drop_last());
        let n = rondas.last().len();
        let pedida = tras_limpieza(p.0, Cuenta::Numero(n as u64));
        (tras_limpieza(pedida, Cuenta::Numero(n as u64)), p.1 + n)
    }
}

proof fn lema_rondas(
    t: Map<Seq<char>, Seq<char>>,
    mes: Seq<char>,
    rondas: Seq<Seq<Seq<char>>>,
    total: int,
)
    requires
        t.dom().finite(),
        rondas_validas(t, mes, rondas),
        total == antiguas(t, mes).len(),
        0 < total <= u64::MAX,
    ensures
        ({
            let u = tras_rondas(t, rondas);
            &&& u.dom().finite()
            &&& u.dom().subset_of(t.dom())
            &&& forall|id: Seq<char>| #[trigger] u.dom().contains(id) ==> u[id] == t[id]
            &&& forall|id: Seq<char>|
                t.dom().contains(id) && !archivos::antes(t[id], mes) ==> #[trigger]
                    u.dom().contains(id)
            &&& antiguas(u, mes).len() + limpieza_tras(total, rondas).1 == total
            &&& limpieza_tras(total, rondas).0 == Limpieza::Pedir
        }),
    decreases rondas.len(),
{
    if rondas.len() > 0 {
        let previas = rondas.drop_last();
        lema_rondas(t, mes, previas, total);
        let u = tras_rondas(t, previas);
        let ids = rondas.last();
        let w = tras_rondas(t, rondas);
        ids.unique_seq_to_set();
        let quitadas = ids.to_set();
        assert(w.dom() =~= u.dom().difference(quitadas));
        assert(antiguas(w, mes) =~= antiguas(u, mes).difference(quitadas));
        vstd::set_lib::lemma_set_disjoint_lens(antiguas(w, mes), quitadas);
        assert(antiguas(u, mes) =~= antiguas(w, mes) + quitadas);
        assert forall|id: Seq<char>|
            t.dom().contains(id) && !archivos::antes(t[id], mes) implies #[trigger] w.dom().contains(
            id,
        ) by {
            assert(u.dom().contains(id));
            if quitadas.contains(id) {
                assert(antiguas(u, mes).contains(id));
            }
        }
    }
}

/// La limpieza que acaba sin errores, cuando el destino ya no da mas identificadores, quita
/// justo las filas anteriores al corte: las demas quedan como estaban, y las borradas que
/// cuenta son las que habia.
pub proof fn ley_limpieza(
    t: Map<Seq<char>, Seq<char>>,
    mes: Seq<char>,
    rondas: Seq<Seq<Seq<char>>>,
)
    requires
        t.dom().finite(),
        0 < antiguas(t, mes).len() <= u64::MAX,
        rondas_validas(t, mes, rondas),
        es_pedido(tras_rondas(t, rondas), mes, seq![]),
    ensures
        ({
            let p = limpieza_tras(antiguas(t, mes).len() as int, rondas);
            &&& tras_limpieza(p.0, Cuenta::Numero(0)) == Limpieza::Fin
            &&& p.1 == antiguas(t, mes).len()
            &&& tras_rondas(t, rondas) == t.remove_keys(antiguas(t, mes))
        }),
{
    let total = antiguas(t, mes).len() as int;
    lema_rondas(t, mes, rondas, total);
    let u = tras_rondas(t, rondas);
    let quedan = antiguas(u, mes);
    assert(quedan.len() == 0);
    assert(quedan =~= Set::empty());
    assert(u =~= t.remove_keys(antiguas(t, mes))) by {
        assert forall|id: Seq<char>| u.dom().contains(id) implies !antiguas(t, mes).contains(id) by {
            if antiguas(t, mes).contains(id) {
                assert(quedan.contains(id));
            }
        }
    }
}

/// Sin filas anteriores al corte la limpieza acaba nada mas contar.
pub proof fn ley_nada_que_limpiar()
    ensures
        tras_limpieza(Limpieza::Contar, Cuenta::Numero(0)) == Limpieza::Fin,
{
}

/// Como se borra en destino lo que se va a subir de nuevo: lo del mes `mes` y los
/// siguientes o, si se conserva todo, todas las filas, que tienen todas identificador.
pub open spec fn consulta_purga(url: Seq<char>, mes: Option<Seq<char>>) -> Seq<char> {
    match mes {
        Some(m) => direccion_tabla(url) + "?mes_ref=gte."@ + m + "&select=id"@,
        None => direccion_tabla(url) + "?id=not.is.null&select=id"@,
    }
}

pub fn url_purga(url: &str, mes: Option<&str>) -> (r: String)
    ensures
        r@ == consulta_purga(url@, vista_opcion(mes)),
{
    match mes {
        Some(m) => {
            let r = texto::mas(texto::mas(endpoint(url), "?mes_ref=gte."), m);
            texto::mas(r, "&select=id")
        },
        None => texto::mas(endpoint(url), "?id=not.is.null&select=id"),
    }
}

/// La fila es de las que se conservan: del mes `mes` o posterior, o cualquiera si se
/// conserva todo.
pub open spec fn en_ventana(v: VentaVista, mes: Option<Seq<char>>) -> bool {
    match mes {
        Some(m) => !archivos::antes(v.mes_ref, m),
        None => true,
    }
}

/// Las filas que llegan al destino con los envios desde la `off`.
pub open spec fn enviadas(filas: Seq<VentaVista>, off: int) -> Seq<VentaVista>
    decreases
            (if off < filas.len() {
                filas.len() - off
            } else {
                0
            }),
{
    if off < 0 || off >= filas.len() {
        seq![]
    } else {
        let fs = filas_envio(filas, off);
        sin_repetir(fs, fs.len()) + enviadas(filas, off + FILAS_LOTE)
    }
}

/// Las filas del destino que una purga deja.
pub open spec fn tras_purga(remoto: Seq<VentaVista>, mes: Option<Seq<char>>) -> Seq<VentaVista> {
    remoto.filter(|v: VentaVista| !en_ventana(v, mes))
}

/// Las filas del destino que la limpieza de lo anterior al corte deja.
pub open spec fn tras_corte(remoto: Seq<VentaVista>, mes: Option<Seq<char>>) -> Seq<VentaVista> {
    remoto.filter(|v: VentaVista| en_ventana(v, mes))
}

proof fn lema_enviadas(filas: Seq<VentaVista>, off: int)
    requires
        distintas(filas),
        0 <= off,
    ensures
        off <= filas.len() ==> enviadas(filas, off) == filas.skip(off),
    decreases
            (if off < filas.len() {
                filas.len() - off
            } else {
                0
            }),
{
    if off < filas.len() {
        let fs = filas_envio(filas, off);
        lema_envio_distinto(filas, off);
        lema_distintas(fs, fs.len());
        assert(fs.take(fs.len() as int) =~= fs);
        lema_enviadas(filas, off + FILAS_LOTE);
        if off + FILAS_LOTE < filas.len() {
            assert(filas.skip(off) =~= fs + filas.skip(off + FILAS_LOTE));
        } else {
            assert(enviadas(filas, off + FILAS_LOTE) =~= Seq::<VentaVista>::empty());
            assert(filas.skip(off) =~= fs + Seq::<VentaVista>::empty());
        }
    } else if off == filas.len() {
        assert(filas.skip(off) =~= Seq::<VentaVista>::empty());
    }
}

proof fn lema_envio_distinto(filas: Seq<VentaVista>, off: int)
    requires
        distintas(filas),
        0 <= off < filas.len(),
    ensures
        distintas(filas_envio(filas, off)),
{
    let fs = filas_envio(filas, off);
    assert forall|i: int, j: int| 0 <= i < j < fs.len() implies clave(#[trigger] fs[i]) != clave(
        #[trigger] fs[j],
    ) by {
        assert(fs[i] == filas[off + i]);
        assert(fs[j] == filas[off + j]);
    }
}

proof fn lema_filtro_de(s: Seq<VentaVista>, pred: spec_fn(VentaVista) -> bool)
    ensures
        forall|i: int| 0 <= i < s.filter(pred).len() ==> s.contains(#[trigger] s.filter(pred)[i]),
    decreases s.len(),
{
    reveal(Seq::filter);
    if s.len() > 0 {
        let antes = s.drop_last();
        lema_filtro_de(antes, pred);
        let previas = antes.filter(pred);
        let todas = s.filter(pred);
        assert forall|i: int| 0 <= i < todas.len() implies s.contains(#[trigger] todas[i]) by {
            if i < previas.len() {
                assert(todas[i] == previas[i]);
                assert(antes.contains(previas[i]));
                let k = choose|k: int| 0 <= k < antes.len() && antes[k] == previas[i];
                assert(s[k] == todas[i]);
            } else {
                assert(s[s.len() - 1] == todas[i]);
            }
        }
    }
}

proof fn lema_filtro_distintas(filas: Seq<VentaVista>, pred: spec_fn(VentaVista) -> bool)
    requires
        distintas(filas),
    ensures
        distintas(filas.filter(pred)),
    decreases filas.len(),
{
    reveal(Seq::filter);
    if filas.len() > 0 {
        let antes = filas.drop_last();
        assert forall|i: int, j: int| 0 <= i < j < antes.len() implies clave(#[trigger] antes[i])
            != clave(#[trigger] antes[j]) by {
            assert(antes[i] == filas[i]);
            assert(antes[j] == filas[j]);
        }
        lema_filtro_distintas(antes, pred);
        let previas = antes.filter(pred);
        let todas = filas.filter(pred);
        lema_filtro_de(antes, pred);
        assert forall|i: int, j: int| 0 <= i < j < todas.len() implies clave(#[trigger] todas[i])
            != clave(#[trigger] todas[j]) by {
            if j < previas.len() {
                assert(todas[i] == previas[i]);
                assert(todas[j] == previas[j]);
            } else {
                assert(todas[i] == previas[i]);
                assert(antes.contains(previas[i]));
                let k = choose|k: int| 0 <= k < antes.len() && antes[k] == previas[i];
                assert(filas[k] == previas[i]);
                assert(todas[j] == filas[filas.len() - 1]);
            }
        }
    }
}

/// Lo que una subida completa borra en destino y lo que envia despues es lo mismo: lo de la
/// ventana que se conserva, sea cual sea. La consulta con que se borra y la condicion de lo
/// que se envia nombran el mismo mes, o ninguno.
pub proof fn ley_purga_de_lo_que_se_sube(
    url: Seq<char>,
    retention_days: int,
    hoy: Fecha,
    remoto: Seq<VentaVista>,
    local: Seq<VentaVista>,
)
    requires
        distintas(local),
    ensures
        ({
            let mes = primer_mes(retention_days, hoy);
            let envio = local.filter(|v: VentaVista| en_ventana(v, mes));
            &&& match mes {
                Some(m) => consulta_purga(url, mes) == direccion_tabla(url) + "?mes_ref=gte."@ + m
                    + "&select=id"@ && filtro_subida(retention_days, hoy, None)
                    == "WHERE mes_ref >= '"@ + m + "'"@,
                None => retention_days == 0 && consulta_purga(url, mes) == direccion_tabla(url)
                    + "?id=not.is.null&select=id"@ && filtro_subida(
                    retention_days,
                    hoy,
                    None,
                ).len() == 0,
            }
            &&& forall|i: int|
                0 <= i < tras_purga(remoto, mes).len() ==> !en_ventana(
                    #[trigger] tras_purga(remoto, mes)[i],
                    mes,
                )
            &&& forall|i: int| 0 <= i < envio.len() ==> en_ventana(#[trigger] envio[i], mes)
            &&& enviadas(envio, 0) == envio
        }),
{
    let mes = primer_mes(retention_days, hoy);
    let dentro = |v: VentaVista| en_ventana(v, mes);
    let fuera = |v: VentaVista| !en_ventana(v, mes);
    db::lema_filtro_cumple(remoto, fuera);
    db::lema_filtro_cumple(local, dentro);
    let envio = local.filter(dentro);
    assert forall|i: int| 0 <= i < tras_purga(remoto, mes).len() implies !en_ventana(
        #[trigger] tras_purga(remoto, mes)[i],
        mes,
    ) by {
        assert(fuera(remoto.filter(fuera)[i]));
    }
    assert forall|i: int| 0 <= i < envio.len() implies en_ventana(#[trigger] envio[i], mes) by {
        assert(dentro(envio[i]));
    }
    lema_filtro_distintas(local, dentro);
    lema_enviadas(envio, 0);
    assert(envio.skip(0) =~= envio);
}

/// Ninguna fila de `a` tiene el folio y el articulo de una de `b`.
pub open spec fn ajenas(a: Seq<VentaVista>, b: Seq<VentaVista>) -> bool {
    forall|i: int, j: int|
        0 <= i < a.len() && 0 <= j < b.len() ==> clave(#[trigger] a[i]) != clave(#[trigger] b[j])
}

/// Tras una subida completa sin fallos el destino tiene justo las filas locales de la
/// ventana, y no hay dos con el mismo folio y articulo. Antes de limpiar ya es asi si se
/// conserva todo o si entre las filas anteriores a la ventana no hay dos iguales ni ninguna
/// como las que se envian.
pub proof fn ley_destino_sin_repetidos(
    remoto: Seq<VentaVista>,
    local: Seq<VentaVista>,
    mes: Option<Seq<char>>,
)
    requires
        distintas(local),
    ensures
        ({
            let envio = local.filter(|v: VentaVista| en_ventana(v, mes));
            let subido = tras_purga(remoto, mes) + enviadas(envio, 0);
            &&& tras_corte(subido, mes) == envio
            &&& distintas(tras_corte(subido, mes))
            &&& mes is None ==> subido == local && distintas(subido)
            &&& distintas(tras_purga(remoto, mes)) && ajenas(tras_purga(remoto, mes), envio)
                ==> distintas(subido)
        }),
{
    let dentro = |v: VentaVista| en_ventana(v, mes);
    let fuera = |v: VentaVista| !en_ventana(v, mes);
    let envio = local.filter(dentro);
    let queda = remoto.filter(fuera);
    lema_filtro_distintas(local, dentro);
    lema_enviadas(envio, 0);
    assert(envio.skip(0) =~= envio);
    db::lema_filtro_cumple(remoto, fuera);
    db::lema_filtro_cumple(local, dentro);
    db::lema_filtro_suma(queda, envio, dentro);
    assert forall|i: int| 0 <= i < queda.len() implies !dentro(#[trigger] queda[i]) by {
        assert(fuera(queda[i]));
    }
    db::lema_filtro_nada(queda, dentro);
    db::lema_filtro_todo(envio, dentro);
    assert(Seq::<VentaVista>::empty() + envio =~= envio);
    if mes is None {
        db::lema_filtro_todo(local, dentro);
        db::lema_filtro_nada(remoto, fuera);
    }
    if distintas(queda) && ajenas(queda, envio) {
        let subido = queda + envio;
        assert forall|i: int, j: int| 0 <= i < j < subido.len() implies clave(#[trigger] subido[i])
            != clave(#[trigger] subido[j]) by {
            if j < queda.len() {
                assert(subido[i] == queda[i] && subido[j] == queda[j]);
            } else if i < queda.len() {
                assert(subido[i] == queda[i] && subido[j] == envio[j - queda.len()]);
            } else {
                assert(subido[i] == envio[i - queda.len()] && subido[j] == envio[j - queda.len()]);
            }
        }
    }
}

/// Cada ronda de la purga borra algo o es la ultima.
pub fn seguir_purga(purgadas: u64, n: u64) -> (r: (u64, bool))
    requires
        purgadas + n <= u64::MAX,
    ensures
        r.0 == purgadas + n,
        r.1 == (n > 0),
{
    (purgadas + n, n > 0)
}

// ---------------------------------------------------------------------------
// Comprobaciones
// ---------------------------------------------------------------------------

#[derive(Debug, Clone)]
pub struct ValidationReport {
    pub total_rows: usize,
    pub valid_rows: usize,
    pub invalid_rows: Vec<String>,
    pub warnings: Vec<String>,
}

/// Lo que se cuenta al revisar, con el nombre que lleva en el informe.
pub open spec fn revisiones() -> Seq<Seq<char>> {
    seq!["sin_folio"@, "sin_sku"@, "cant_neg"@]
}

/// Una linea del informe por cada cuenta mayor que cero.
pub open spec fn avisos(cuentas: Seq<i64>, n: nat) -> Seq<Seq<char>>
    decreases n,
{
    if n == 0 {
        seq![]
    } else {
        let previos = avisos(cuentas, (n - 1) as nat);
        if cuentas[n - 1] > 0 {
            previos.push(
                revisiones()[n - 1] + ": "@ + texto::decimal_signo(cuentas[n - 1] as int)
                    + " registros"@,
            )
        } else {
            previos
        }
    }
}

fn nombre_revision(i: usize) -> (r: &'static str)
    requires
        i < 3,
    ensures
        r@ == revisiones()[i as int],
{
    if i == 0 {
        "sin_folio"
    } else if i == 1 {
        "sin_sku"
    } else {
        "cant_neg"
    }
}

/// El informe de lo que se va a subir: filas sin folio, sin articulo y con cantidad
/// negativa.
pub fn informe(total: usize, cuentas: &Vec<i64>) -> (r: ValidationReport)
    requires
        cuentas@.len() == 3,
    ensures
        r.total_rows == total,
        r.valid_rows == total,
        texto::textos(r.invalid_rows@) == avisos(cuentas@, 3),
        r.warnings@.len() == 0,
{
    let mut invalid_rows: Vec<String> = Vec::new();
    let mut i: usize = 0;
    assert(texto::textos(invalid_rows@) =~= Seq::<Seq<char>>::empty());
    while i < 3
        invariant
            0 <= i <= 3,
            cuentas@.len() == 3,
            texto::textos(invalid_rows@) == avisos(cuentas@, i as nat),
        decreases 3 - i,
    {
        let ghost antes = texto::textos(invalid_rows@);
        if cuentas[i] > 0 {
            let linea = texto::mas(nombre_revision(i).to_owned(), ": ");
            let linea = texto::mas(linea, texto::texto_i64(cuentas[i]).as_str());
            let linea = texto::mas(linea, " registros");
            let ghost v = linea@;
            invalid_rows.push(linea);
            assert(texto::textos(invalid_rows@) =~= antes.push(v));
        }
        i = i + 1;
    }
    ValidationReport { total_rows: total, valid_rows: total, invalid_rows, warnings: Vec::new() }
}

#[derive(Debug, Clone)]
pub struct VerificationResult {
    pub expected_count: usize,
    pub actual_count: usize,
    pub matched: bool,
    pub discrepancy: usize,
}

/// La direccion en que se cuenta lo subido desde un momento, o todo.
pub open spec fn consulta_verificacion(url: Seq<char>, desde: Option<Seq<char>>) -> Seq<char> {
    match desde {
        Some(s) => direccion_tabla(url) + "?capturado_en=gte."@ + s,
        None => direccion_tabla(url),
    }
}

pub fn url_verificacion(url: &str, desde: Option<&str>) -> (r: String)
    ensures
        r@ == consulta_verificacion(url@, vista_opcion(desde)),
{
    match desde {
        Some(s) => texto::mas(texto::mas(endpoint(url), "?capturado_en=gte."), s),
        None => endpoint(url),
    }
}

/// Compara las filas enviadas con las que anuncia el destino.
pub fn verify_upload_result(expected_count: usize, content_range: &str) -> (r: VerificationResult)
    ensures
        r.expected_count == expected_count,
        r.actual_count == total_anunciado(content_range@),
        r.matched == (expected_count == r.actual_count),
        r.discrepancy == (if expected_count >= r.actual_count {
            expected_count - r.actual_count
        } else {
            r.actual_count - expected_count
        }),
{
    let actual_count: usize = total_de_rango(content_range);
    let discrepancy: usize = if expected_count >= actual_count {
        expected_count - actual_count
    } else {
        actual_count - expected_count
    };
    VerificationResult {
        expected_count,
        actual_count,
        matched: expected_count == actual_count,
        discrepancy,
    }
}

/// La clave con que se verifica: la que se da o, si no, la de servicio.
pub fn clave_verificacion(dada: &str, servicio: &str) -> (r: String)
    ensures
        r@ == (if dada@.len() == 0 {
            servicio@
        } else {
            dada@
        }),
{
    if dada.unicode_len() == 0 {
        servicio.to_owned()
    } else {
        dada.to_owned()
    }
}

/// Lo que se dice de una prueba de conexion.
pub open spec fn resultado_prueba(codigo: int, estado: Seq<char>, cuerpo: Seq<char>) -> Seq<char> {
    if exito(codigo) {
        "OK - tabla '"@ + config::SUPABASE_TABLE@ + "' accesible ("@ + estado + ")"@
    } else {
        "ERROR "@ + estado + ": "@ + primeros(cuerpo, 200)
    }
}

pub open spec fn primeros(s: Seq<char>, n: int) -> Seq<char> {
    if s.len() <= n {
        s
    } else {
        s.take(n)
    }
}

/// Los primeros caracteres de un texto.
pub fn primeros_caracteres(s: &str, n: usize) -> (r: String)
    ensures
        r@ == primeros(s@, n as int),
{
    let v = texto::caracteres(s);
    if v.len() <= n {
        s.to_owned()
    } else {
        let r = texto::cadena(&v, 0, n);
        assert(r@ =~= s@.take(n as int));
        r
    }
}

pub fn test_supabase_connection(codigo: u16, estado: &str, cuerpo: &str) -> (r: String)
    ensures
        r@ == resultado_prueba(codigo as int, estado@, cuerpo@),
{
    if 200 <= codigo && codigo <= 299 {
        let r = texto::mas("OK - tabla '".to_owned(), config::SUPABASE_TABLE);
        let r = texto::mas(texto::mas(r, "' accesible ("), estado);
        texto::mas(r, ")")
    } else {
        let r = texto::mas(texto::mas("ERROR ".to_owned(), estado), ": ");
        texto::mas(r, primeros_caracteres(cuerpo, 200).as_str())
    }
}

/// Una subida que no se hace: las filas y los envios que llevaria, y sus totales.
#[derive(Debug, Clone)]
pub struct DryRunResult {
    pub rows_to_upload: usize,
    pub total_batches: usize,
    pub total_cantidad: Monto,
    pub total_soles: Monto,
    pub total_dolares: Monto,
    pub unique_invoices: i64,
    pub date_range_start: Option<String>,
    pub date_range_end: Option<String>,
}

/// Los totales de lo que se subiria: cantidad, soles, dolares, facturas, primer y
/// ultimo mes.
pub struct Totales {
    pub cantidad: Monto,
    pub soles: Monto,
    pub dolares: Monto,
    pub facturas: i64,
    pub desde: String,
    pub hasta: String,
}

pub fn dry_run_upload(filas: usize, totales: Option<Totales>) -> (r: DryRunResult)
    ensures
        (r.rows_to_upload as int, r.total_batches as int) == simulacro(filas as int),
        match totales {
            Some(t) => r.total_cantidad == t.cantidad && r.total_soles == t.soles
                && r.total_dolares == t.dolares && r.unique_invoices == t.facturas
                && models::texto_opcional(r.date_range_start) == Some(t.desde@)
                && models::texto_opcional(r.date_range_end) == Some(t.hasta@),
            None => r.total_cantidad == Monto(0) && r.total_soles == Monto(0) && r.total_dolares
                == Monto(0) && r.unique_invoices == 0 && r.date_range_start is None
                && r.date_range_end is None,
        },
{
    let total_batches: usize = total_lotes(filas as u64) as usize;
    match totales {
        Some(t) => DryRunResult {
            rows_to_upload: filas,
            total_batches,
            total_cantidad: t.cantidad,
            total_soles: t.soles,
            total_dolares: t.dolares,
            unique_invoices: t.facturas,
            date_range_start: Some(t.desde),
            date_range_end: Some(t.hasta),
        },
        None => DryRunResult {
            rows_to_upload: filas,
            total_batches,
            total_cantidad: Monto(0),
            total_soles: Monto(0),
            total_dolares: Monto(0),
            unique_invoices: 0,
            date_range_start: None,
            date_range_end: None,
        },
    }
}

// ---------------------------------------------------------------------------
// Leyes de la subida
// ---------------------------------------------------------------------------

/// Las dos ventas son la misma linea: mismo folio y mismo articulo, enteros los dos.
pub open spec fn misma_linea(v: VentaVista, w: VentaVista) -> bool {
    v.folio_unico == w.folio_unico && v.id_articulo == w.id_articulo
}

/// Solo se quita una venta si otra anterior del lote tiene el mismo folio y el mismo articulo.
/// La que difiere en cualquiera de los dos se sube, y lo que se sube sale del lote.
pub proof fn ley_dedup_por_campos(vs: Seq<VentaVista>, n: nat, i: int)
    requires
        0 <= i < n <= vs.len(),
    ensures
        (forall|j: int| 0 <= j < i ==> !misma_linea(#[trigger] vs[j], vs[i])) ==> sin_repetir(
            vs,
            n,
        ).contains(vs[i]),
        forall|a: int, b: int|
            0 <= a < b < sin_repetir(vs, n).len() ==> !misma_linea(
                #[trigger] sin_repetir(vs, n)[a],
                #[trigger] sin_repetir(vs, n)[b],
            ),
        forall|a: int|
            0 <= a < sin_repetir(vs, n).len() ==> vs.contains(#[trigger] sin_repetir(vs, n)[a]),
        exists|a: int|
            0 <= a < sin_repetir(vs, n).len() && misma_linea(
                #[trigger] sin_repetir(vs, n)[a],
                vs[i],
            ),
        sin_repetir(vs, n).len() <= n,
{
    ley_claves_conservadas(vs, n, i);
    ley_sin_repetidos(vs, n);
    if forall|j: int| 0 <= j < i ==> !misma_linea(#[trigger] vs[j], vs[i]) {
        assert forall|j: int| 0 <= j < i implies clave(#[trigger] vs[j]) != clave(vs[i]) by {
            assert(!misma_linea(vs[j], vs[i]));
        }
        assert(nueva_entre(vs, i, vs[i]));
    }
    let r = sin_repetir(vs, n);
    assert forall|a: int| 0 <= a < r.len() implies vs.contains(#[trigger] r[a]) by {
        lema_sale_de(vs, n, a);
        let k = choose|k: int| 0 <= k < n && #[trigger] vs[k] == r[a];
        assert(vs[k] == r[a]);
    }
    let k = choose|k: int| 0 <= k < r.len() && clave(#[trigger] r[k]) == clave(vs[i]);
    assert(misma_linea(r[k], vs[i]));
    lema_no_mas(vs, n);
}

proof fn lema_no_mas(vs: Seq<VentaVista>, n: nat)
    ensures
        sin_repetir(vs, n).len() <= n,
    decreases n,
{
    if n > 0 {
        lema_no_mas(vs, (n - 1) as nat);
    }
}

/// Un lote sin lineas repetidas se sube entero y en su orden.
pub proof fn ley_lote_sin_repetidas(vs: Seq<VentaVista>)
    requires
        forall|i: int, j: int|
            0 <= i < j < vs.len() ==> !misma_linea(#[trigger] vs[i], #[trigger] vs[j]),
    ensures
        sin_repetir(vs, vs.len()) == vs,
{
    assert forall|i: int, j: int| 0 <= i < j < vs.len() implies clave(#[trigger] vs[i]) != clave(
        #[trigger] vs[j],
    ) by {
        assert(!misma_linea(vs[i], vs[j]));
    }
    lema_distintas(vs, vs.len());
    assert(vs.take(vs.len() as int) =~= vs);
}

/// Lo que se hace tras cada respuesta. Un codigo de exito acaba siempre bien; un fallo de red o
/// del servidor se reintenta mientras queden intentos, esperando mas cada vez y mas si es del
/// servidor; lo demas falla, con la causa en el mensaje.
pub proof fn ley_decision(intento: u32, r: Respuesta)
    requires
        1 <= intento <= 3,
    ensures
        ({
            let d = decision(intento, r);
            let reintenta = !d.0 && d.1 >= 0;
            let falla = !d.0 && d.1 == -1;
            &&& (r matches Respuesta::Estado { codigo, .. } ==> (d.0 <==> 200 <= codigo <= 299))
            &&& !(r is Estado) ==> !d.0
            &&& d.0 || reintenta || falla
            &&& (r matches Respuesta::Estado { codigo, .. } ==> (reintenta <==> intento < 3 && (500
                <= codigo <= 599 || codigo == 429)))
            &&& !(r is Estado) ==> (reintenta <==> intento < 3)
            &&& reintenta && r is Estado ==> d.1 == 1000 * intento
            &&& reintenta && !(r is Estado) ==> d.1 == 500 * intento
            &&& (falla && r is SinEnvio ==> texto::termina(d.2, r->SinEnvio_0@))
            &&& (falla && r is SinLectura ==> texto::termina(d.2, r->SinLectura_0@))
            &&& (falla && r is Estado ==> texto::termina(d.2, r->texto@) && texto::contiene(
                d.2,
                r->estado@,
            ))
        }),
{
    match r {
        Respuesta::SinEnvio(e) => {
            texto::ley_contiene("Supabase request failed: "@, e@, seq![]);
        },
        Respuesta::SinLectura(e) => {
            texto::ley_contiene("Supabase read response failed: "@, e@, seq![]);
        },
        Respuesta::Estado { codigo, estado, texto: t } => {
            texto::ley_contiene("Supabase "@ + estado@ + ": "@, t@, seq![]);
            texto::ley_contiene("Supabase "@, estado@, ": "@ + t@);
            assert("Supabase "@ + estado@ + ": "@ + t@ =~= "Supabase "@ + estado@ + (": "@ + t@));
        },
    }
}

/// Lo que se sube se acota por las dos puntas que toquen, y por ninguna otra: lo capturado tras
/// la ultima subida, si hubo, y lo no anterior al corte, si lo hay.
pub proof fn ley_condicion(last_sync: Option<Seq<char>>, corte: Option<Seq<char>>)
    ensures
        ({
            let c = condicion(last_sync, corte);
            let hubo = last_sync is Some && last_sync->0.len() > 0;
            &&& c.len() == 0 <==> !hubo && corte is None
            &&& hubo ==> texto::empieza(c, "WHERE capturado_en > '"@ + last_sync->0 + "'"@)
            &&& hubo && corte is None ==> c == "WHERE capturado_en > '"@ + last_sync->0 + "'"@
            &&& !hubo && corte is Some ==> c == "WHERE mes_ref >= '"@ + corte->0 + "'"@
            &&& hubo && corte is Some ==> texto::termina(
                c,
                " AND mes_ref >= '"@ + corte->0 + "'"@,
            )
        }),
{
    reveal_strlit("WHERE capturado_en > '");
    reveal_strlit("WHERE mes_ref >= '");
    let c = condicion(last_sync, corte);
    if last_sync is Some && last_sync->0.len() > 0 {
        let a = "WHERE capturado_en > '"@ + last_sync->0 + "'"@;
        let nada = Seq::<char>::empty();
        texto::ley_contiene(nada, a, nada);
        assert(a + nada =~= a);
        if corte is Some {
            let b = " AND mes_ref >= '"@ + corte->0 + "'"@;
            assert(c =~= a + b);
            texto::ley_contiene(a, b, nada);
            texto::ley_contiene(nada, a, b);
        }
    }
}

/// Los envios son los justos: quinientas filas cada uno y el ultimo con las que queden.
pub proof fn ley_lotes(total: int)
    requires
        0 <= total,
    ensures
        500 * lotes(total) >= total,
        total > 0 ==> 500 * (lotes(total) - 1) < total,
        lotes(0) == 0,
        simulacro(total) == (total, lotes(total)),
{
}

/// Cada envio lleva las filas que siguen a las del anterior, quinientas o las que queden, y
/// entre todos las llevan todas.
pub proof fn ley_filas_de_envio(filas: Seq<VentaVista>, off: int)
    requires
        0 <= off < filas.len(),
    ensures
        ({
            let e = filas_envio(filas, off);
            &&& 0 < e.len() <= 500
            &&& e.len() < 500 ==> off + e.len() == filas.len()
            &&& filas.skip(off) == e + filas.skip(off + e.len())
            &&& off + 500 < filas.len() ==> e.len() == 500
        }),
{
    let e = filas_envio(filas, off);
    assert(filas.skip(off) =~= e + filas.skip(off + e.len()));
}

/// Como lleva la cuenta la subida: con claves repetidas falla sin subir nada; cada envio suma
/// lo suyo y no cambia el total; un error la hace fallar, salvo en la limpieza del final; lo
/// hecho no se pierde.
pub proof fn ley_cuenta_de_subida(s: Subida, n: u64)
    requires
        s.coherente(),
        n <= i64::MAX,
    ensures
        ({
            let bien = s.tras(Cuenta::Numero(n));
            let mal = s.tras(Cuenta::Error);
            &&& s.fase == Fase::Duplicados && n > 0 ==> bien.fase == Fase::Fallo
            &&& s.fase == Fase::Duplicados && n == 0 ==> bien.fase == (if s.completa {
                Fase::Purga
            } else {
                Fase::Conteo
            })
            &&& s.fase == Fase::Purga ==> bien.fase == Fase::Conteo
            &&& s.fase == Fase::Conteo && n == 0 ==> bien.fase == Fase::Fin && bien.subidas == 0
            &&& s.fase == Fase::Conteo && n > 0 ==> bien.fase == (Fase::Envio { off: 0 })
                && bien.total == n && bien.subidas == 0
            &&& s.fase is Envio && n <= 500 ==> bien.subidas == s.subidas + n && bien.total
                == s.total
            &&& s.fase == Fase::Limpieza ==> bien.fase == Fase::Fin && bien.limpiadas == n
                && bien.subidas == s.subidas
            &&& s.fase == Fase::Limpieza ==> mal.fase == Fase::Fin && mal.subidas == s.subidas
                && mal.limpiadas == s.limpiadas
            &&& !(s.fase is Limpieza || s.fase is Fin) ==> mal.fase == Fase::Fallo
            &&& s.fase == Fase::Fin ==> bien == s && mal == s
            &&& s.fase == Fase::Fallo ==> bien == s && mal == s
            &&& bien.completa == s.completa && mal.completa == s.completa
            &&& mal.subidas == s.subidas && mal.total == s.total
        }),
{
}

/// El total que anuncia el destino es el numero tras la barra; sin barra o sin numero, cero.
pub proof fn ley_total_anunciado(a: Seq<char>, n: nat)
    requires
        !a.contains('/'),
        n <= usize::MAX,
    ensures
        total_anunciado(a + seq!['/'] + texto::decimal(n)) == n,
        total_anunciado(a) == 0,
        total_anunciado(a + seq!['/', '*']) == 0,
{
    let d = texto::decimal(n);
    texto::ley_decimal(n, usize::MAX as int);
    assert forall|i: int| 0 <= i < d.len() implies #[trigger] d[i] != '/' by {
        assert(texto::es_cifra(d[i]));
    }
    assert forall|i: int| 0 <= i < a.len() implies #[trigger] a[i] != '/' by {
        assert(a.contains(a[i]));
    }
    let nada = Seq::<char>::empty();
    texto::lema_partes_suma(nada, a, d, '/');
    lema_una_parte(a);
    lema_una_parte(d);
    assert(texto::partes(a + seq!['/'] + d, '/') =~= seq![a, d]);
    let e = seq!['*'];
    texto::lema_partes_suma(nada, a, e, '/');
    lema_una_parte(e);
    assert(a + seq!['/', '*'] =~= a + seq!['/'] + e);
    assert(texto::partes(a + seq!['/'] + e, '/') =~= seq![a, e]);
    assert(!texto::es_cifra(e[0]));
    assert(!texto::son_cifras(e));
}

proof fn lema_una_parte(a: Seq<char>)
    requires
        forall|i: int| 0 <= i < a.len() ==> #[trigger] a[i] != '/',
    ensures
        texto::partes(a, '/') == seq![a],
{
    let nada = Seq::<char>::empty();
    texto::lema_partes_tramo(nada, a, nada, '/');
    assert(a + nada =~= a);
    assert(nada + a =~= a);
}

/// Las direcciones son las de la tabla de ventas del destino, con lo que se pide detras: los
/// identificadores anteriores al mes, de quinientos en quinientos; los que se borran, todos; y
/// lo recibido desde un momento.
pub proof fn ley_direcciones(url: Seq<char>, mes: Seq<char>, ids: Seq<Seq<char>>)
    ensures
        ({
            let t = direccion_tabla(url);
            &&& t == url + "/rest/v1/ventas"@
            &&& consulta_ids(url, mes) == t + "?mes_ref=lt."@ + mes + "&select=id&limit=500"@
            &&& texto::empieza(consulta_borrado(url, ids), t + "?id=in.("@)
            &&& texto::contiene(consulta_borrado(url, ids), texto::unido(ids, ","@))
            &&& consulta_verificacion(url, None) == t
            &&& consulta_verificacion(url, Some(mes)) == t + "?capturado_en=gte."@ + mes
            &&& consulta_purga(url, Some(mes)) == t + "?mes_ref=gte."@ + mes + "&select=id"@
            &&& consulta_purga(url, None) == t + "?id=not.is.null&select=id"@
        }),
{
    reveal_strlit("/rest/v1/");
    reveal_strlit("ventas");
    reveal_strlit("/rest/v1/ventas");
    assert(direccion_tabla(url) =~= url + "/rest/v1/ventas"@);
    let a = direccion_tabla(url) + "?id=in.("@;
    let u = texto::unido(ids, ","@);
    texto::ley_contiene(a, u, ")&select=id"@);
    texto::ley_contiene(seq![], a, u + ")&select=id"@);
    assert(a + (u + ")&select=id"@) =~= consulta_borrado(url, ids));
}

/// El mes del corte es el del primer dia que se conserva: ninguno si se conserva todo.
pub proof fn ley_mes_de_corte(retention_days: int, hoy: Fecha, f: Fecha)
    requires
        f.valida(),
        0 <= f.anho <= 9999,
        f.numero() == hoy.numero() - retention_days,
    ensures
        retention_days == 0 <==> primer_mes(retention_days, hoy) is None,
        retention_days != 0 ==> primer_mes(retention_days, hoy) == Some(fecha::texto_mes(f)),
{
    if retention_days != 0 {
        let g = dia_de_numero(hoy.numero() - retention_days);
        fecha::lema_orden(f, g);
        fecha::lema_orden(g, f);
        fecha::ley_largo_de_fecha(f);
        assert(fecha::texto_iso(f).take(7) =~= fecha::texto_mes(f));
    }
}

/// Los primeros caracteres de un texto son su comienzo, todos si no hay tantos.
pub proof fn ley_primeros(s: Seq<char>, n: int)
    requires
        0 <= n,
    ensures
        texto::empieza(s, primeros(s, n)),
        s.len() <= n ==> primeros(s, n) == s,
        s.len() > n ==> primeros(s, n).len() == n,
{
    let p = primeros(s, n);
    assert(s.subrange(0, p.len() as int) =~= p);
}

/// Una prueba de conexion dice que va bien solo con un codigo de exito, y el estado siempre.
pub proof fn ley_prueba(codigo: int, estado: Seq<char>, cuerpo: Seq<char>)
    ensures
        ({
            let r = resultado_prueba(codigo, estado, cuerpo);
            &&& 200 <= codigo <= 299 <==> texto::empieza(r, "OK - tabla '"@)
            &&& texto::contiene(r, estado)
        }),
{
    reveal_strlit("OK - tabla '");
    reveal_strlit("ERROR ");
    let r = resultado_prueba(codigo, estado, cuerpo);
    if exito(codigo) {
        let a = "OK - tabla '"@ + config::SUPABASE_TABLE@ + "' accesible ("@;
        texto::ley_contiene(a, estado, ")"@);
        assert(r.subrange(0, 12) =~= "OK - tabla '"@);
    } else {
        let b = ": "@ + primeros(cuerpo, 200);
        texto::ley_contiene("ERROR "@, estado, b);
        assert("ERROR "@ + estado + b =~= r);
        if texto::empieza(r, "OK - tabla '"@) {
            assert(r.subrange(0, 12)[0] == 'O');
            assert(r[0] == 'E');
        }
    }
}

/// El informe tiene una linea por cada cuenta mayor que cero, con su nombre y su numero, y
/// ninguna si todo esta bien.
pub proof fn ley_avisos(cuentas: Seq<i64>, n: nat)
    requires
        n <= 3,
        cuentas.len() == 3,
    ensures
        (forall|i: int| 0 <= i < n ==> #[trigger] cuentas[i] <= 0) ==> avisos(cuentas, n).len() == 0,
        (forall|i: int| 0 <= i < n ==> #[trigger] cuentas[i] > 0) ==> avisos(cuentas, n).len() == n,
        n > 0 && cuentas[n - 1] > 0 ==> texto::contiene(
            avisos(cuentas, n).last(),
            texto::decimal_signo(cuentas[n - 1] as int),
        ) && texto::empieza(avisos(cuentas, n).last(), revisiones()[n - 1]),
        n > 0 && cuentas[n - 1] <= 0 ==> avisos(cuentas, n) == avisos(cuentas, (n - 1) as nat),
    decreases n,
{
    if n > 0 {
        ley_avisos(cuentas, (n - 1) as nat);
        let a = revisiones()[n - 1] + ": "@;
        let d = texto::decimal_signo(cuentas[n - 1] as int);
        texto::ley_contiene(a, d, " registros"@);
        let b = ": "@ + d + " registros"@;
        texto::ley_contiene(seq![], revisiones()[n - 1], b);
        assert(revisiones()[n - 1] + b =~= a + d + " registros"@);
    }
}

/// Las credenciales de muestra no sirven: se reconocen esten donde esten en la direccion o en
/// la clave.
pub proof fn ley_de_muestra(a: Seq<char>, b: Seq<char>, k: Seq<char>)
    ensures
        de_muestra(a + "TU_SUPABASE"@ + b, k),
        de_muestra(k, a + "TU_ANON"@ + b),
        de_muestra(a, b) ==> texto::contiene(a, "TU_SUPABASE"@) || texto::contiene(b, "TU_ANON"@),
{
    texto::ley_contiene(a, "TU_SUPABASE"@, b);
    texto::ley_contiene(a, "TU_ANON"@, b);
}

/// La limpieza cuenta, pide y borra por turno mientras haya algo; se acaba cuando no hay nada o
/// algo falla, y una vez acabada no vuelve a empezar.
pub proof fn ley_turnos_de_limpieza(n: u64, c: Cuenta)
    ensures
        n > 0 ==> tras_limpieza(Limpieza::Contar, Cuenta::Numero(n)) == Limpieza::Pedir,
        n > 0 ==> tras_limpieza(Limpieza::Pedir, Cuenta::Numero(n)) == Limpieza::Borrar,
        n > 0 ==> tras_limpieza(Limpieza::Borrar, Cuenta::Numero(n)) == Limpieza::Pedir,
        tras_limpieza(Limpieza::Contar, Cuenta::Numero(0)) == Limpieza::Fin,
        tras_limpieza(Limpieza::Pedir, Cuenta::Numero(0)) == Limpieza::Fin,
        tras_limpieza(Limpieza::Borrar, Cuenta::Numero(0)) == Limpieza::Fin,
        tras_limpieza(Limpieza::Contar, Cuenta::Error) == Limpieza::Fin,
        tras_limpieza(Limpieza::Pedir, Cuenta::Error) == Limpieza::Fin,
        tras_limpieza(Limpieza::Borrar, Cuenta::Error) == Limpieza::Fin,
        tras_limpieza(Limpieza::Fin, c) == Limpieza::Fin,
{
}

/// Los limites: tres intentos por envio, de quinientas filas como mucho.
pub proof fn ley_limites()
    ensures
        INTENTOS == 3,
        FILAS_LOTE == 500,
{
}

} // verus!
