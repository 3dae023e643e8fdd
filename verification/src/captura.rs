//! Captura por lotes: que meses faltan, como se piden y que se hace cuando fallan.

use crate::fecha;
use crate::fecha::Fecha;
use crate::fecha::MonthRange;
use crate::fecha::RangoVista;
use crate::texto;
use vstd::prelude::*;

verus! {

// ---------------------------------------------------------------------------
// Union de archivos CSV
// ---------------------------------------------------------------------------

/// Lo unido hasta ahora: sus lineas y si ya se puso la cabecera, que es una de
/// ellas.
#[verifier::ext_equal]
pub struct UnionVista {
    pub lineas: Seq<Seq<char>>,
    pub cabecera: bool,
}

pub struct Union {
    pub lineas: Vec<String>,
    pub cabecera: bool,
}

impl View for Union {
    type V = UnionVista;

    open spec fn view(&self) -> UnionVista {
        UnionVista { lineas: texto::textos(self.lineas@), cabecera: self.cabecera }
    }
}

/// Une una linea, la `j` de su archivo. La primera no vacia que abre un archivo es
/// la cabecera; las demas que abren un archivo y las lineas en blanco se saltan.
pub open spec fn con_linea(u: UnionVista, j: int, l: Seq<char>) -> UnionVista {
    let blanca = texto::recortado(l).len() == 0;
    if j == 0 && !u.cabecera && !blanca {
        UnionVista { lineas: u.lineas.push(l), cabecera: true }
    } else if j == 0 || blanca {
        u
    } else {
        UnionVista { lineas: u.lineas.push(l), cabecera: u.cabecera }
    }
}

/// Une las `n` primeras lineas de un archivo.
pub open spec fn con_lineas(u: UnionVista, ls: Seq<Seq<char>>, n: nat) -> UnionVista
    decreases n,
{
    if n == 0 {
        u
    } else {
        con_linea(con_lineas(u, ls, (n - 1) as nat), n - 1, ls[n - 1])
    }
}

pub open spec fn con_parte(u: UnionVista, parte: Seq<char>) -> UnionVista {
    con_lineas(u, texto::lineas(parte), texto::lineas(parte).len())
}

pub open spec fn union_vacia() -> UnionVista {
    UnionVista { lineas: seq![], cabecera: false }
}

pub open spec fn union_de(partes: Seq<Seq<char>>) -> UnionVista
    decreases partes.len(),
{
    if partes.len() == 0 {
        union_vacia()
    } else {
        con_parte(union_de(partes.drop_last()), partes.last())
    }
}

/// Cada linea con su final.
pub open spec fn con_finales(ls: Seq<Seq<char>>) -> Seq<char>
    decreases ls.len(),
{
    if ls.len() == 0 {
        seq![]
    } else {
        con_finales(ls.drop_last()) + ls.last() + "\n"@
    }
}

impl UnionVista {
    /// Lineas de datos: todas menos la cabecera.
    pub open spec fn datos(self) -> int {
        self.lineas.len() - (if self.cabecera {
            1int
        } else {
            0
        })
    }

    /// Si hay cabecera, ocupa una linea.
    pub open spec fn coherente(self) -> bool {
        self.cabecera ==> self.lineas.len() > 0
    }
}

proof fn lema_union_coherente(u: UnionVista, ls: Seq<Seq<char>>, n: nat)
    requires
        u.coherente(),
    ensures
        con_lineas(u, ls, n).coherente(),
    decreases n,
{
    if n > 0 {
        lema_union_coherente(u, ls, (n - 1) as nat);
    }
}

impl Union {
    pub fn nueva() -> (r: Union)
        ensures
            r@ == union_vacia(),
            r@.coherente(),
    {
        let r = Union { lineas: Vec::new(), cabecera: false };
        assert(r@ =~= union_vacia());
        r
    }

    /// Une el texto de un archivo.
    pub fn agregar(&mut self, parte: &str)
        requires
            old(self)@.coherente(),
        ensures
            final(self)@ == con_parte(old(self)@, parte@),
            final(self)@.coherente(),
    {
        let ls = texto::separar_lineas(parte);
        let ghost vs = texto::textos(ls@);
        let ghost inicial = self@;
        let mut j: usize = 0;
        while j < ls.len()
            invariant
                0 <= j <= ls@.len(),
                vs == texto::textos(ls@),
                vs == texto::lineas(parte@),
                self@ == con_lineas(inicial, vs, j as nat),
            decreases ls@.len() - j,
        {
            let l = ls[j].clone();
            assert(vs[j as int] == l@);
            let util = texto::recortar(l.as_str());
            let blanca = util.as_str().unicode_len() == 0;
            let ghost antes = texto::textos(self.lineas@);
            if j == 0 && !self.cabecera && !blanca {
                self.lineas.push(l);
                self.cabecera = true;
                assert(texto::textos(self.lineas@) =~= antes.push(l@));
            } else if j > 0 && !blanca {
                self.lineas.push(l);
                assert(texto::textos(self.lineas@) =~= antes.push(l@));
            }
            j = j + 1;
            assert(self@ =~= con_lineas(inicial, vs, j as nat));
        }
        proof {
            lema_union_coherente(inicial, vs, vs.len());
        }
    }

    /// El texto unido y cuantas lineas de datos lleva.
    pub fn terminar(&self) -> (r: (String, usize))
        requires
            self@.coherente(),
        ensures
            r.0@ == con_finales(self@.lineas),
            r.1 == self@.datos(),
    {
        let ghost ls = texto::textos(self.lineas@);
        let mut s = String::new();
        let mut i: usize = 0;
        assert(ls.take(0) =~= Seq::<Seq<char>>::empty());
        while i < self.lineas.len()
            invariant
                0 <= i <= self.lineas@.len(),
                ls == texto::textos(self.lineas@),
                s@ == con_finales(ls.take(i as int)),
            decreases self.lineas@.len() - i,
        {
            proof {
                assert(ls.take(i + 1).drop_last() =~= ls.take(i as int));
                assert(ls[i as int] == self.lineas@[i as int]@);
            }
            s = texto::mas(texto::mas(s, self.lineas[i].as_str()), "\n");
            i = i + 1;
        }
        assert(ls.take(i as int) =~= ls);
        let n: usize = self.lineas.len();
        assert(ls.len() == n);
        (
            s,
            if self.cabecera {
                n - 1
            } else {
                n
            },
        )
    }
}

/// Une los textos de varios archivos: la cabecera del primero una sola vez y todas
/// las lineas de datos. Devuelve el texto y las lineas de datos.
pub fn merge_csvs(parts: &Vec<String>) -> (r: (String, usize))
    ensures
        r.0@ == con_finales(union_de(texto::textos(parts@)).lineas),
        r.1 == union_de(texto::textos(parts@)).datos(),
{
    let ghost ps = texto::textos(parts@);
    let mut u = Union::nueva();
    let mut i: usize = 0;
    assert(ps.take(0) =~= Seq::<Seq<char>>::empty());
    while i < parts.len()
        invariant
            0 <= i <= parts@.len(),
            ps == texto::textos(parts@),
            u@ == union_de(ps.take(i as int)),
            u@.coherente(),
        decreases parts@.len() - i,
    {
        proof {
            assert(ps.take(i + 1).drop_last() =~= ps.take(i as int));
            assert(ps[i as int] == parts@[i as int]@);
        }
        u.agregar(parts[i].as_str());
        i = i + 1;
    }
    assert(ps.take(i as int) =~= ps);
    u.terminar()
}

/// Las lineas de datos de un archivo: las no vacias tras la primera.
pub open spec fn datos_de(ls: Seq<Seq<char>>, n: nat) -> Seq<Seq<char>>
    decreases n,
{
    if n <= 1 {
        seq![]
    } else {
        let previas = datos_de(ls, (n - 1) as nat);
        if texto::recortado(ls[n - 1]).len() == 0 {
            previas
        } else {
            previas.push(ls[n - 1])
        }
    }
}

pub open spec fn datos_de_partes(partes: Seq<Seq<char>>) -> Seq<Seq<char>>
    decreases partes.len(),
{
    if partes.len() == 0 {
        seq![]
    } else {
        let ls = texto::lineas(partes.last());
        datos_de_partes(partes.drop_last()) + datos_de(ls, ls.len())
    }
}

/// El archivo empieza por una cabecera.
pub open spec fn tiene_cabecera(parte: Seq<char>) -> bool {
    texto::lineas(parte).len() > 0 && texto::recortado(texto::lineas(parte)[0]).len() > 0
}

proof fn lema_con_cabecera(u: UnionVista, ls: Seq<Seq<char>>, n: nat)
    requires
        u.cabecera,
    ensures
        con_lineas(u, ls, n).cabecera,
        con_lineas(u, ls, n).lineas == u.lineas + datos_de(ls, n),
    decreases n,
{
    if n > 0 {
        lema_con_cabecera(u, ls, (n - 1) as nat);
    }
    assert(con_lineas(u, ls, n).lineas =~= u.lineas + datos_de(ls, n));
}

proof fn lema_primera_parte(ls: Seq<Seq<char>>, n: nat)
    requires
        n >= 1,
        texto::recortado(ls[0]).len() > 0,
    ensures
        con_lineas(union_vacia(), ls, n).cabecera,
        con_lineas(union_vacia(), ls, n).lineas == seq![ls[0]] + datos_de(ls, n),
    decreases n,
{
    reveal_with_fuel(con_lineas, 2);
    if n > 1 {
        lema_primera_parte(ls, (n - 1) as nat);
    }
    assert(con_lineas(union_vacia(), ls, n).lineas =~= seq![ls[0]] + datos_de(ls, n));
}

/// Si el primer archivo empieza por una cabecera, lo unido es esa cabecera una sola
/// vez y, detras, las lineas de datos de todos los archivos en su orden; la cuenta
/// es la de esas lineas.
pub proof fn ley_union(partes: Seq<Seq<char>>)
    requires
        partes.len() > 0,
        tiene_cabecera(partes[0]),
    ensures
        union_de(partes).cabecera,
        union_de(partes).lineas == seq![texto::lineas(partes[0])[0]] + datos_de_partes(partes),
        union_de(partes).datos() == datos_de_partes(partes).len(),
    decreases partes.len(),
{
    let previas = partes.drop_last();
    let ls = texto::lineas(partes.last());
    if previas.len() > 0 {
        assert(previas[0] == partes[0]);
        ley_union(previas);
        lema_con_cabecera(union_de(previas), ls, ls.len());
    } else {
        assert(partes.last() == partes[0]);
        assert(union_de(previas) == union_vacia());
        lema_primera_parte(ls, ls.len());
        assert(datos_de_partes(previas) =~= Seq::<Seq<char>>::empty());
    }
    assert(union_de(partes).lineas =~= seq![texto::lineas(partes[0])[0]] + datos_de_partes(
        partes,
    ));
}

// ---------------------------------------------------------------------------
// Que falta por capturar
// ---------------------------------------------------------------------------

/// Primer dia que se captura si no hay otro dato.
pub open spec fn fecha_inicial() -> Fecha {
    Fecha { anho: 2021, mes: 1, dia: 1 }
}

fn inicial() -> (r: Fecha)
    ensures
        r == fecha_inicial(),
        r.valida(),
{
    Fecha { anho: 2021, mes: 1, dia: 1 }
}

/// La fecha que se pide: la que se lee o, si no se da o no se lee, `defecto`.
pub open spec fn fecha_pedida(s: Seq<char>, defecto: Fecha) -> Fecha {
    if s.len() == 0 || texto::contiene(s, "--"@) {
        defecto
    } else {
        match fecha::fecha_leida(s, "%Y-%m-%d"@) {
            Some(f) => f,
            None => defecto,
        }
    }
}

pub fn leer_pedida(s: &str, defecto: Fecha) -> (r: Fecha)
    requires
        defecto.valida(),
    ensures
        r == fecha_pedida(s@, defecto),
        r.valida(),
{
    proof {
        reveal_strlit("--");
    }
    if s.unicode_len() == 0 || texto::contiene_texto(s, "--") {
        return defecto;
    }
    match fecha::leer_fecha(s, "%Y-%m-%d") {
        Some(f) => f,
        None => defecto,
    }
}

/// El rango que se pide, desde el comienzo y hasta hoy si no se dice otra cosa.
pub open spec fn rango_pedido(sd: Seq<char>, ed: Seq<char>, hoy: Fecha) -> (Fecha, Fecha) {
    (fecha_pedida(sd, fecha_inicial()), fecha_pedida(ed, hoy))
}

/// El rango que se pide; nada si acaba antes de empezar.
pub fn leer_rango(sd: &str, ed: &str, hoy: Fecha) -> (r: Option<(Fecha, Fecha)>)
    requires
        hoy.valida(),
    ensures
        ({
            let p = rango_pedido(sd@, ed@, hoy);
            if p.0.numero() > p.1.numero() {
                r is None
            } else {
                r == Some(p)
            }
        }),
        r matches Some(p) ==> p.0.valida() && p.1.valida(),
{
    let s = leer_pedida(sd, inicial());
    let e = leer_pedida(ed, hoy);
    if fecha::anterior(e, s) {
        None
    } else {
        Some((s, e))
    }
}

/// El ultimo dia capturado, segun la base de datos.
pub open spec fn ultimo_dia(last: Option<Seq<char>>) -> Fecha {
    match last {
        None => fecha_inicial(),
        Some(s) => match fecha::fecha_leida(s, "%Y-%m-%d"@) {
            Some(f) => f,
            None => fecha_inicial(),
        },
    }
}

pub fn leer_ultimo(last: Option<&str>) -> (r: Fecha)
    ensures
        r == ultimo_dia(
            match last {
                Some(s) => Some(s@),
                None => None,
            },
        ),
        r.valida(),
{
    match last {
        None => inicial(),
        Some(s) => match fecha::leer_fecha(s, "%Y-%m-%d") {
            Some(f) => f,
            None => inicial(),
        },
    }
}

/// Numero del dia desde el que se sincroniza: el anterior al ultimo capturado,
/// salvo que este sea el primero de todos o anterior.
pub open spec fn dia_partida(ultimo: Fecha) -> int {
    if ultimo.numero() > fecha_inicial().numero() {
        ultimo.numero() - 1
    } else {
        ultimo.numero()
    }
}

/// Como se piden los datos que faltan.
pub enum Plan {
    /// Por meses: los que ya esten completos se saltan.
    Meses(Vec<MonthRange>),
    /// Dia a dia.
    Dias(Vec<MonthRange>),
    /// El rango pedido acaba antes de empezar.
    Invalido,
}

/// Con mas dias pendientes que estos se pide por meses.
pub const DIAS_SUELTOS: i64 = 7;

/// El ultimo mes del calendario: tras el no hay otro con que acabarlo.
pub open spec fn en_ultimo_mes(f: Fecha) -> bool {
    f.anho == fecha::ANHO_MAX && f.mes == 12
}

fn meses_de(s: Fecha, e: Fecha) -> (r: Vec<MonthRange>)
    requires
        s.valida(),
        e.valida(),
        s.numero() <= e.numero(),
        !en_ultimo_mes(e),
    ensures
        fecha::rangos(r@) == fecha::meses_hasta(
            s.anho as int,
            s.mes as int,
            e.anho as int,
            e.mes as int,
            e,
        ),
{
    proof {
        fecha::lema_orden(s, e);
    }
    fecha::gen_month_range(s.anho, s.mes, e.anho, e.mes, e)
}

/// Plan de una sincronizacion: desde el dia de partida hasta hoy, por meses si
/// faltan mas de unos dias sueltos.
pub fn plan_diario(last: Option<&str>, hoy: Fecha) -> (r: Plan)
    requires
        hoy.valida(),
        !en_ultimo_mes(hoy),
    ensures
        ({
            let ultimo = ultimo_dia(
                match last {
                    Some(s) => Some(s@),
                    None => None,
                },
            );
            let n = dia_partida(ultimo);
            if hoy.numero() - n > DIAS_SUELTOS {
                exists|s: Fecha|
                    s.valida() && #[trigger] s.numero() == n && (r matches Plan::Meses(v)
                        && fecha::rangos(v@) == fecha::meses_hasta(
                        s.anho as int,
                        s.mes as int,
                        hoy.anho as int,
                        hoy.mes as int,
                        hoy,
                    ))
            } else {
                r matches Plan::Dias(v) && fecha::son_dias(fecha::rangos(v@), n) && v@.len() == (
                if n <= hoy.numero() {
                    hoy.numero() - n + 1
                } else {
                    0
                })
            }
        }),
{
    let ultimo = leer_ultimo(last);
    let suelo = inicial();
    proof {
        fecha::lema_numero_en_rango(ultimo);
        fecha::lema_numero_en_rango(suelo);
        fecha::lema_numero_en_rango(hoy);
    }
    let desde = if fecha::anterior(suelo, ultimo) {
        fecha::sumar_dias(ultimo, -1).unwrap()
    } else {
        ultimo
    };
    let faltan: i64 = fecha::dias_de_a(desde, hoy);
    proof {
        let ultimo_anho = Fecha { anho: fecha::ANHO_MAX, mes: 12, dia: 31 };
        fecha::lema_orden(hoy, ultimo_anho);
    }
    if faltan > DIAS_SUELTOS {
        Plan::Meses(meses_de(desde, hoy))
    } else {
        Plan::Dias(fecha::dias_entre(desde, hoy))
    }
}

/// El rango pedido acaba antes de empezar o no llega al ultimo mes del calendario.
pub open spec fn rango_planeable(sd: Seq<char>, ed: Seq<char>, hoy: Fecha) -> bool {
    let p = rango_pedido(sd, ed, hoy);
    p.0.numero() > p.1.numero() || !en_ultimo_mes(p.1)
}

/// Plan de una captura por rango: los meses del rango pedido.
pub fn plan_rango(sd: &str, ed: &str, hoy: Fecha) -> (r: Plan)
    requires
        hoy.valida(),
        rango_planeable(sd@, ed@, hoy),
    ensures
        ({
            let p = rango_pedido(sd@, ed@, hoy);
            if p.0.numero() > p.1.numero() {
                r is Invalido
            } else {
                r matches Plan::Meses(v) && fecha::rangos(v@) == fecha::meses_hasta(
                    p.0.anho as int,
                    p.0.mes as int,
                    p.1.anho as int,
                    p.1.mes as int,
                    p.1,
                )
            }
        }),
{
    match leer_rango(sd, ed, hoy) {
        None => Plan::Invalido,
        Some((s, e)) => Plan::Meses(meses_de(s, e)),
    }
}

/// Plan de una captura por rango; nada si el rango llega al ultimo mes del calendario.
pub fn planear(sd: &str, ed: &str, hoy: Fecha) -> (r: Option<Plan>)
    requires
        hoy.valida(),
    ensures
        r is Some <==> rango_planeable(sd@, ed@, hoy),
        r matches Some(plan) ==> ({
            let p = rango_pedido(sd@, ed@, hoy);
            if p.0.numero() > p.1.numero() {
                plan is Invalido
            } else {
                plan matches Plan::Meses(v) && fecha::rangos(v@) == fecha::meses_hasta(
                    p.0.anho as int,
                    p.0.mes as int,
                    p.1.anho as int,
                    p.1.mes as int,
                    p.1,
                )
            }
        }),
{
    match leer_rango(sd, ed, hoy) {
        None => Some(plan_rango(sd, ed, hoy)),
        Some((_, e)) => if e.anho == fecha::ANHO_MAX && e.mes == 12 {
            None
        } else {
            Some(plan_rango(sd, ed, hoy))
        },
    }
}

/// Bytes a partir de los cuales un CSV se da por completo.
pub const CSV_COMPLETO: u64 = 1000;

/// Un archivo que existe y es mayor que `minimo`.
pub open spec fn mayor_que(tamano: Option<u64>, minimo: int) -> bool {
    tamano is Some && tamano->0 > minimo
}

pub fn es_mayor_que(tamano: Option<u64>, minimo: u64) -> (r: bool)
    ensures
        r == mayor_que(tamano, minimo as int),
{
    match tamano {
        Some(n) => n > minimo,
        None => false,
    }
}

/// Un mes se pide si es el actual, que puede traer datos nuevos, o si no esta
/// completo.
pub open spec fn se_pide(label: Seq<char>, mes_actual: Seq<char>, tamano: Option<u64>) -> bool {
    label == mes_actual || !mayor_que(tamano, CSV_COMPLETO as int)
}

/// De los `n` primeros rangos, los que se piden.
pub open spec fn por_pedir(
    v: Seq<RangoVista>,
    mes_actual: Seq<char>,
    tamanos: Seq<Option<u64>>,
    n: nat,
) -> Seq<RangoVista>
    decreases n,
{
    if n == 0 {
        seq![]
    } else {
        let previos = por_pedir(v, mes_actual, tamanos, (n - 1) as nat);
        if se_pide(v[n - 1].label, mes_actual, tamanos[n - 1]) {
            previos.push(v[n - 1])
        } else {
            previos
        }
    }
}

/// Los meses que quedan por pedir, dado el tamano del CSV de cada uno.
pub fn meses_pendientes(v: Vec<MonthRange>, hoy: Fecha, tamanos: &Vec<Option<u64>>) -> (r: Vec<
    MonthRange,
>)
    requires
        hoy.valida(),
        tamanos@.len() == v@.len(),
    ensures
        fecha::rangos(r@) == por_pedir(
            fecha::rangos(v@),
            fecha::texto_mes(hoy),
            tamanos@,
            v@.len(),
        ),
{
    let actual = fecha::mes_iso(hoy);
    let ghost vs = fecha::rangos(v@);
    let mut r: Vec<MonthRange> = Vec::new();
    let mut i: usize = 0;
    assert(fecha::rangos(r@) =~= Seq::<RangoVista>::empty());
    while i < v.len()
        invariant
            0 <= i <= v@.len(),
            tamanos@.len() == v@.len(),
            vs == fecha::rangos(v@),
            actual@ == fecha::texto_mes(hoy),
            fecha::rangos(r@) == por_pedir(vs, actual@, tamanos@, i as nat),
        decreases v@.len() - i,
    {
        assert(vs[i as int] == v@[i as int]@);
        let ghost antes = r@;
        if texto::iguales(v[i].label.as_str(), actual.as_str()) || !es_mayor_que(
            tamanos[i],
            CSV_COMPLETO,
        ) {
            let copia = v[i].copia();
            r.push(copia);
            assert(fecha::rangos(r@) =~= fecha::rangos(antes).push(copia@));
        }
        i = i + 1;
    }
    r
}

/// El mes en curso se pide siempre, este o no completo.
pub proof fn ley_mes_actual_se_pide(
    v: Seq<RangoVista>,
    mes_actual: Seq<char>,
    tamanos: Seq<Option<u64>>,
    n: nat,
    i: int,
)
    requires
        0 <= i < n <= v.len(),
        v[i].label == mes_actual,
    ensures
        por_pedir(v, mes_actual, tamanos, n).contains(v[i]),
    decreases n,
{
    let previos = por_pedir(v, mes_actual, tamanos, (n - 1) as nat);
    let todos = por_pedir(v, mes_actual, tamanos, n);
    if i < n - 1 {
        ley_mes_actual_se_pide(v, mes_actual, tamanos, (n - 1) as nat, i);
        let k = choose|k: int| 0 <= k < previos.len() && previos[k] == v[i];
        assert(todos[k] == v[i]);
    } else {
        assert(todos[previos.len() as int] == v[i]);
    }
}

/// Elementos que se estiman al empezar una sincronizacion.
pub fn estimados_diario(last: Option<&str>, hoy: Fecha) -> (r: usize)
    requires
        hoy.valida(),
    ensures
        ({
            let ultimo = ultimo_dia(
                match last {
                    Some(s) => Some(s@),
                    None => None,
                },
            );
            r == (if hoy.numero() >= ultimo.numero() {
                hoy.numero() - ultimo.numero() + 1
            } else {
                1
            })
        }),
{
    let ultimo = leer_ultimo(last);
    proof {
        fecha::lema_numero_en_rango(ultimo);
        fecha::lema_numero_en_rango(hoy);
        fecha::lema_extremos();
    }
    let dias: i64 = fecha::dias_de_a(ultimo, hoy);
    if dias > 0 {
        dias as usize + 1
    } else {
        1
    }
}

/// Elementos que se estiman al empezar una captura por rango.
pub fn estimados_rango(s: Fecha, e: Fecha) -> (r: usize)
    requires
        s.valida(),
        e.valida(),
        s.numero() <= e.numero(),
    ensures
        r == (e.numero() - s.numero()) / 31 + 1,
{
    proof {
        fecha::lema_numero_en_rango(s);
        fecha::lema_numero_en_rango(e);
        fecha::lema_extremos();
    }
    let dias: i64 = fecha::dias_de_a(s, e);
    dias as usize / 31 + 1
}

// ---------------------------------------------------------------------------
// Leyes
// ---------------------------------------------------------------------------

/// Las lineas de datos de un archivo son todas las que siguen a la primera y no estan en
/// blanco, tal cual y en su orden.
pub proof fn ley_lineas_de_datos(ls: Seq<Seq<char>>, n: nat)
    requires
        1 <= n <= ls.len(),
    ensures
        datos_de(ls, n) == ls.subrange(1, n as int).filter(
            |l: Seq<char>| texto::recortado(l).len() > 0,
        ),
    decreases n,
{
    reveal(Seq::filter);
    let p = |l: Seq<char>| texto::recortado(l).len() > 0;
    let t = ls.subrange(1, n as int);
    if n == 1 {
        assert(t.filter(p) =~= Seq::<Seq<char>>::empty());
    } else {
        ley_lineas_de_datos(ls, (n - 1) as nat);
        assert(t.drop_last() =~= ls.subrange(1, n - 1));
        assert(t.last() == ls[n - 1]);
    }
}

/// Los datos de varios archivos son los de cada uno, uno detras de otro.
pub proof fn ley_datos_de_partes(partes: Seq<Seq<char>>, p: Seq<char>)
    ensures
        datos_de_partes(partes.push(p)) == datos_de_partes(partes) + datos_de(
            texto::lineas(p),
            texto::lineas(p).len(),
        ),
        datos_de_partes(seq![]).len() == 0,
        union_de(partes.push(p)) == con_parte(union_de(partes), p),
        texto::lineas(p).len() == 0 ==> union_de(partes.push(p)) == union_de(partes),
{
    assert(partes.push(p).drop_last() =~= partes);
}

/// Lo unido se escribe con una linea por registro, cada una con su final y ninguna cambiada: al
/// leerlo salen las mismas lineas.
pub proof fn ley_texto_unido(ls: Seq<Seq<char>>)
    requires
        forall|i: int|
            0 <= i < ls.len() ==> !(#[trigger] ls[i]).contains('\n') && (ls[i].len() > 0
                ==> ls[i].last() != '\r'),
    ensures
        texto::lineas(con_finales(ls)) == ls,
    decreases ls.len(),
{
    reveal_strlit("\n");
    assert("\n"@ =~= seq!['\n']);
    if ls.len() > 0 {
        lema_finales_primero(ls);
        let t = ls.drop_first();
        assert forall|i: int| 0 <= i < t.len() implies !(#[trigger] t[i]).contains('\n') && (
        t[i].len() > 0 ==> t[i].last() != '\r') by {
            assert(t[i] == ls[i + 1]);
        }
        ley_texto_unido(t);
        texto::ley_lineas(ls[0], con_finales(t));
        assert(texto::sin_retorno(ls[0]) == ls[0]);
        assert(seq![ls[0]] + t =~= ls);
    } else {
        assert(texto::lineas(con_finales(ls)) =~= ls);
    }
}

proof fn lema_finales_primero(ls: Seq<Seq<char>>)
    requires
        ls.len() > 0,
    ensures
        con_finales(ls) == ls[0] + seq!['\n'] + con_finales(ls.drop_first()),
    decreases ls.len(),
{
    reveal_strlit("\n");
    assert("\n"@ =~= seq!['\n']);
    let nada = Seq::<char>::empty();
    if ls.len() == 1 {
        assert(ls.drop_last() =~= Seq::<Seq<char>>::empty());
        assert(con_finales(ls.drop_last()) =~= nada);
        assert(con_finales(ls.drop_first()) =~= nada);
        assert(nada + ls[0] + seq!['\n'] =~= ls[0] + seq!['\n'] + nada);
    } else {
        let a = ls.drop_last();
        lema_finales_primero(a);
        assert(a.drop_first() =~= ls.drop_first().drop_last());
        assert(a[0] == ls[0]);
        assert(ls.drop_first().last() == ls.last());
        assert(ls[0] + seq!['\n'] + con_finales(a.drop_first()) + ls.last() + seq!['\n'] =~= ls[0]
            + seq!['\n'] + (con_finales(a.drop_first()) + ls.last() + seq!['\n']));
    }
}

/// Sin fecha, con una a medias o con una que no se lee, se toma la que toca por defecto; si se
/// lee, esa. El rango empieza, si no se dice, en 2021, y acaba hoy.
pub proof fn ley_fecha_pedida(s: Seq<char>, defecto: Fecha, hoy: Fecha)
    ensures
        ({
            let leida = fecha::fecha_leida(s, "%Y-%m-%d"@);
            let dada = s.len() > 0 && !texto::contiene(s, "--"@);
            &&& dada && leida is Some ==> fecha_pedida(s, defecto) == leida->0
            &&& !dada || leida is None ==> fecha_pedida(s, defecto) == defecto
        }),
        rango_pedido(seq![], seq![], hoy) == (Fecha { anho: 2021, mes: 1, dia: 1 }, hoy),
        rango_pedido(s, seq![], hoy).0 == fecha_pedida(s, Fecha { anho: 2021, mes: 1, dia: 1 }),
        rango_pedido(seq![], s, hoy).1 == fecha_pedida(s, hoy),
{
}

/// La sincronizacion parte del dia anterior al ultimo capturado, que se vuelve a pedir por si
/// trae mas; sin ninguno, o si es el primero de todos, de ese mismo.
pub proof fn ley_dia_de_partida(last: Option<Seq<char>>)
    ensures
        ({
            let u = ultimo_dia(last);
            let primero = Fecha { anho: 2021, mes: 1, dia: 1 };
            &&& last is None ==> u == primero
            &&& (last matches Some(s) ==> match fecha::fecha_leida(s, "%Y-%m-%d"@) {
                Some(f) => u == f,
                None => u == primero,
            })
            &&& u.numero() > primero.numero() ==> dia_partida(u) == u.numero() - 1
            &&& u.numero() <= primero.numero() ==> dia_partida(u) == u.numero()
        }),
{
}

/// De los meses se piden, en su orden, el que esta en curso y los que no tienen un CSV de mas
/// de mil bytes; los demas se saltan.
pub proof fn ley_por_pedir(
    v: Seq<RangoVista>,
    mes_actual: Seq<char>,
    tamanos: Seq<Option<u64>>,
    n: nat,
)
    requires
        0 < n <= v.len() == tamanos.len(),
    ensures
        ({
            let completo = tamanos[n - 1] matches Some(b) && b > 1000;
            let previos = por_pedir(v, mes_actual, tamanos, (n - 1) as nat);
            por_pedir(v, mes_actual, tamanos, n) == (if v[n - 1].label == mes_actual || !completo {
                previos.push(v[n - 1])
            } else {
                previos
            })
        }),
        por_pedir(v, mes_actual, tamanos, 0).len() == 0,
{
}

/// Un archivo es mayor que `minimo` si existe y tiene mas bytes.
pub proof fn ley_mayor_que(b: u64, minimo: int)
    ensures
        mayor_que(Some(b), minimo) <==> b > minimo,
        !mayor_que(None, minimo),
{
}

/// Los limites: hasta una semana se pide dia a dia, y un archivo esta completo si pasa de mil
/// bytes.
pub proof fn ley_limites()
    ensures
        DIAS_SUELTOS == 7,
        CSV_COMPLETO == 1000,
{
}

} // verus!
