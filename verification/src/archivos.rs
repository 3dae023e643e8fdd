//! Archivos capturados: cuales son, que falta en cada mes y vista previa de los que
//! se importan a mano.

use crate::captura;
use crate::fecha;
use crate::models;
use crate::models::Venta;
use crate::models::VentaVista;
use crate::tabla;
use crate::tabla::Tabla;
use crate::texto;
use vstd::prelude::*;

verus! {

// ---------------------------------------------------------------------------
// Nombres
// ---------------------------------------------------------------------------

/// El CSV de un mes entero, no de una parte ni de un dia.
pub open spec fn mensual(nombre: Seq<char>) -> bool {
    &&& texto::empieza(nombre, "ventas_"@)
    &&& texto::termina(nombre, ".csv"@)
    &&& !texto::contiene(nombre, "-p"@)
    &&& texto::bytes_de(nombre) == 18
}

pub fn es_mensual(nombre: &str) -> (r: bool)
    ensures
        r == mensual(nombre@),
{
    proof {
        reveal_strlit("-p");
    }
    texto::empieza_con(nombre, "ventas_") && texto::termina_con(nombre, ".csv")
        && !texto::contiene_texto(nombre, "-p") && texto::largo_bytes(nombre) == 18
}

/// El CSV de un elemento capturado, no de una parte.
pub open spec fn capturado(nombre: Seq<char>) -> bool {
    texto::empieza(nombre, "ventas_"@) && texto::termina(nombre, ".csv"@) && !texto::contiene(
        nombre,
        "-p"@,
    )
}

pub fn es_capturado(nombre: &str) -> (r: bool)
    ensures
        r == capturado(nombre@),
{
    proof {
        reveal_strlit("-p");
    }
    texto::empieza_con(nombre, "ventas_") && texto::termina_con(nombre, ".csv")
        && !texto::contiene_texto(nombre, "-p")
}

/// Lo que se borra al vaciar los datos del equipo: ventas, resumenes y avisos de
/// dias que faltan.
pub open spec fn de_datos(nombre: Seq<char>) -> bool {
    ||| texto::empieza(nombre, "ventas_"@) && (texto::termina(nombre, ".csv"@) || texto::termina(
        nombre,
        ".xls"@,
    ) || texto::termina(nombre, ".html"@))
    ||| texto::empieza(nombre, "summary"@)
    ||| texto::empieza(nombre, "failed_"@) && texto::termina(nombre, ".json"@)
}

pub fn es_de_datos(nombre: &str) -> (r: bool)
    ensures
        r == de_datos(nombre@),
{
    let datos = texto::empieza_con(nombre, "ventas_") && (texto::termina_con(nombre, ".csv")
        || texto::termina_con(nombre, ".xls") || texto::termina_con(nombre, ".html"));
    let aviso = texto::empieza_con(nombre, "failed_") && texto::termina_con(nombre, ".json");
    datos || texto::empieza_con(nombre, "summary") || aviso
}

/// Cuantas veces se borra un archivo al limpiar la cache: por ser un libro cuyo CSV
/// esta completo y por ser el CSV de una parte.
pub open spec fn borrados(nombre: Seq<char>, es_xls: bool, csv: Option<u64>) -> int {
    (if es_xls && captura::mayor_que(csv, captura::CSV_COMPLETO as int) {
        1int
    } else {
        0
    }) + (if texto::contiene(nombre, "-p"@) && texto::termina(nombre, ".csv"@) {
        1int
    } else {
        0
    })
}

pub fn borrados_de(nombre: &str, es_xls: bool, csv: Option<u64>) -> (r: usize)
    ensures
        r == borrados(nombre@, es_xls, csv),
{
    proof {
        reveal_strlit("-p");
    }
    let mut n: usize = 0;
    if es_xls && captura::es_mayor_que(csv, captura::CSV_COMPLETO) {
        n = n + 1;
    }
    if texto::contiene_texto(nombre, "-p") && texto::termina_con(nombre, ".csv") {
        n = n + 1;
    }
    n
}

/// El mes de un aviso de dias que faltan.
pub open spec fn mes_aviso(nombre: Seq<char>) -> Option<Seq<char>> {
    if texto::empieza(nombre, "failed_"@) && texto::termina(nombre, ".json"@) {
        Some(
            texto::reemplazado(
                texto::reemplazado(nombre, "failed_"@, seq![]),
                ".json"@,
                seq![],
            ),
        )
    } else {
        None
    }
}

pub fn mes_de_aviso(nombre: &str) -> (r: Option<String>)
    ensures
        models::texto_opcional(r) == mes_aviso(nombre@),
{
    proof {
        reveal_strlit("failed_");
        reveal_strlit(".json");
        reveal_strlit("");
        assert(""@ =~= Seq::<char>::empty());
    }
    if texto::empieza_con(nombre, "failed_") && texto::termina_con(nombre, ".json") {
        let t = texto::reemplazar(nombre, "failed_", "");
        Some(texto::reemplazar(t.as_str(), ".json", ""))
    } else {
        None
    }
}

/// Los dias que faltan de un mes.
#[derive(Debug, Clone)]
pub struct FailedDayInfo {
    pub mes: String,
    pub dias_faltantes: Vec<String>,
}

/// `a` va antes que `b` en orden alfabetico.
pub open spec fn antes(a: Seq<char>, b: Seq<char>) -> bool
    decreases a.len(),
{
    if b.len() == 0 {
        false
    } else if a.len() == 0 {
        true
    } else if a[0] != b[0] {
        a[0] < b[0]
    } else {
        antes(a.drop_first(), b.drop_first())
    }
}

fn va_antes(a: &str, b: &str) -> (r: bool)
    ensures
        r == antes(a@, b@),
{
    let x = texto::caracteres(a);
    let y = texto::caracteres(b);
    let mut i: usize = 0;
    assert(x@.skip(0) =~= x@);
    assert(y@.skip(0) =~= y@);
    while i < x.len() && i < y.len()
        invariant
            0 <= i <= x@.len(),
            i <= y@.len(),
            antes(a@, b@) == antes(x@.skip(i as int), y@.skip(i as int)),
        decreases x@.len() - i,
    {
        if x[i] != y[i] {
            return x[i] < y[i];
        }
        assert(x@.skip(i as int).drop_first() =~= x@.skip(i + 1));
        assert(y@.skip(i as int).drop_first() =~= y@.skip(i + 1));
        i = i + 1;
    }
    i < y.len()
}

/// El CSV capturado con el ultimo nombre en orden alfabetico.
pub fn ultimo_csv(nombres: &Vec<String>) -> (r: Option<usize>)
    ensures
        match r {
            None => forall|i: int|
                0 <= i < nombres@.len() ==> !capturado((#[trigger] nombres@[i])@),
            Some(k) => k < nombres@.len() && capturado(nombres@[k as int]@) && forall|i: int|
                0 <= i < nombres@.len() && capturado((#[trigger] nombres@[i])@) ==> !antes(
                    nombres@[k as int]@,
                    nombres@[i]@,
                ),
        },
{
    let mut mejor: Option<usize> = None;
    let mut i: usize = 0;
    while i < nombres.len()
        invariant
            0 <= i <= nombres@.len(),
            match mejor {
                None => forall|j: int|
                    0 <= j < i ==> !capturado((#[trigger] nombres@[j])@),
                Some(k) => k < i && capturado(nombres@[k as int]@) && forall|j: int|
                    0 <= j < i && capturado((#[trigger] nombres@[j])@) ==> !antes(
                        nombres@[k as int]@,
                        nombres@[j]@,
                    ),
            },
        decreases nombres@.len() - i,
    {
        if es_capturado(nombres[i].as_str()) {
            match mejor {
                None => {
                    proof {
                        lema_no_antes_de_si(nombres@[i as int]@);
                    }
                    mejor = Some(i);
                },
                Some(k) => {
                    if va_antes(nombres[k].as_str(), nombres[i].as_str()) {
                        proof {
                            lema_no_antes_de_si(nombres@[i as int]@);
                            assert forall|j: int|
                                0 <= j < i && capturado((#[trigger] nombres@[j])@) implies !antes(
                                nombres@[i as int]@,
                                nombres@[j]@,
                            ) by {
                                if antes(nombres@[i as int]@, nombres@[j]@) {
                                    lema_antes_transitivo(
                                        nombres@[k as int]@,
                                        nombres@[i as int]@,
                                        nombres@[j]@,
                                    );
                                }
                            }
                        }
                        mejor = Some(i);
                    }
                },
            }
        }
        i = i + 1;
    }
    mejor
}

proof fn lema_no_antes_de_si(a: Seq<char>)
    ensures
        !antes(a, a),
    decreases a.len(),
{
    if a.len() > 0 {
        lema_no_antes_de_si(a.drop_first());
    }
}

proof fn lema_antes_transitivo(a: Seq<char>, b: Seq<char>, c: Seq<char>)
    requires
        antes(a, b),
        antes(b, c),
    ensures
        antes(a, c),
    decreases a.len(),
{
    if a.len() > 0 && a[0] == b[0] && b[0] == c[0] {
        lema_antes_transitivo(a.drop_first(), b.drop_first(), c.drop_first());
    }
}

/// La cabecera y las dos primeras filas de una tabla, sin blancos en los extremos.
pub open spec fn muestra(cabecera: Seq<Seq<char>>, filas: Seq<Seq<Seq<char>>>) -> Seq<Seq<Seq<char>>> {
    (seq![cabecera] + filas).map_values(
        |f: Seq<Seq<char>>| f.map_values(|c: Seq<char>| texto::recortado(c)),
    )
}

fn recortar_fila(f: &Vec<String>) -> (r: Vec<String>)
    ensures
        texto::textos(r@) == texto::textos(f@).map_values(|c: Seq<char>| texto::recortado(c)),
{
    let mut r: Vec<String> = Vec::new();
    let mut i: usize = 0;
    while i < f.len()
        invariant
            0 <= i <= f@.len(),
            r@.len() == i,
            forall|k: int| 0 <= k < i ==> (#[trigger] r@[k])@ == texto::recortado(f@[k]@),
        decreases f@.len() - i,
    {
        r.push(texto::recortar(f[i].as_str()));
        i = i + 1;
    }
    assert(texto::textos(r@) =~= texto::textos(f@).map_values(
        |c: Seq<char>| texto::recortado(c),
    ));
    r
}

/// Las filas de la vista previa de una tabla ya leida.
pub fn filas_muestra(t: &Tabla) -> (r: Vec<Vec<String>>)
    ensures
        tabla::filas_de(r@) == muestra(t@.cabecera, t@.filas),
{
    let ghost todas = seq![t@.cabecera] + t@.filas;
    let mut r: Vec<Vec<String>> = Vec::new();
    r.push(recortar_fila(&t.cabecera));
    let mut i: usize = 0;
    while i < t.filas.len()
        invariant
            0 <= i <= t.filas@.len(),
            todas == seq![t@.cabecera] + t@.filas,
            r@.len() == i + 1,
            forall|k: int|
                0 <= k <= i ==> texto::textos((#[trigger] r@[k])@) == todas[k].map_values(
                    |c: Seq<char>| texto::recortado(c),
                ),
        decreases t.filas@.len() - i,
    {
        r.push(recortar_fila(&t.filas[i]));
        assert(todas[i + 1] == texto::textos(t.filas@[i as int]@));
        i = i + 1;
    }
    assert(tabla::filas_de(r@) =~= muestra(t@.cabecera, t@.filas));
    r
}

/// La vista previa de un CSV: la cabecera y sus dos primeras filas.
pub fn preview_csv(datos: &[u8]) -> (r: Result<Vec<Vec<String>>, String>)
    ensures
        match tabla::csv_comienzo(datos@, 2) {
            Ok(p) => r matches Ok(v) && tabla::filas_de(v@) == muestra(p.0, p.1),
            Err(e) => r matches Err(m) && m@ == e,
        },
{
    match tabla::leer_comienzo(datos, 2) {
        Ok(t) => Ok(filas_muestra(&t)),
        Err(m) => Err(m),
    }
}

// ---------------------------------------------------------------------------
// Lo que falta en cada mes
// ---------------------------------------------------------------------------

/// Cuanto hay de un mes.
#[derive(Debug, Clone)]
pub struct CompletenessInfo {
    pub mes_ref: String,
    pub dias_esperados: i32,
    pub dias_con_data: i32,
    pub dailies_en_disco: i32,
    pub filas: i64,
    pub faltan: Vec<String>,
    pub estado: String,
}

/// Ano y mes de una etiqueta `aaaa-mm`; lo que no es un numero es el ano 2000 o
/// enero. Nada si no tiene dos partes.
pub open spec fn anho_y_mes(mes_ref: Seq<char>) -> Option<(int, int)> {
    let ps = texto::partes(mes_ref, '-');
    if ps.len() != 2 {
        None
    } else {
        Some(
            (
                match texto::entero_leido(ps[0], i32::MIN as int, i32::MAX as int) {
                    Some(n) => n,
                    None => 2000,
                },
                match texto::natural_leido(ps[1], u32::MAX as int) {
                    Some(n) => n,
                    None => 1,
                },
            ),
        )
    }
}

/// Dias de un mes; treinta si no es un mes del calendario.
pub open spec fn dias_esperados(y: int, m: int) -> int {
    if 1 <= m <= 12 {
        fecha::dias_del_mes(y, m)
    } else {
        30
    }
}

pub fn dias_mes_ref(mes_ref: &str) -> (r: Option<i32>)
    ensures
        match anho_y_mes(mes_ref@) {
            Some(p) => r == Some(dias_esperados(p.0, p.1) as i32),
            None => r is None,
        },
{
    let ps = texto::partir(mes_ref, '-');
    assert(texto::textos(ps@).len() == ps@.len());
    if ps.len() != 2 {
        return None;
    }
    assert(texto::textos(ps@)[0] == ps@[0]@ && texto::textos(ps@)[1] == ps@[1]@);
    let y: i32 = match texto::leer_i32(ps[0].as_str()) {
        Some(n) => n,
        None => 2000,
    };
    let m: u32 = match texto::leer_natural(ps[1].as_str(), u32::MAX as u64) {
        Some(n) => n as u32,
        None => 1,
    };
    let dias: i32 = if m == 2 {
        if es_bisiesto(y) {
            29
        } else {
            28
        }
    } else if m == 4 || m == 6 || m == 9 || m == 11 || m == 0 || m > 12 {
        30
    } else {
        31
    };
    Some(dias)
}

fn es_bisiesto(y: i32) -> (r: bool)
    ensures
        r == fecha::bisiesto(y as int),
{
    proof {
        reveal(fecha::bisiesto);
    }
    // Un multiplo de 400 que hace positivo cualquier ano.
    let r: u64 = (y as i64 + 2_147_484_000) as u64 % 400;
    proof {
        lema_resto(y as int, 5368710);
        lema_resto_menor(y as int, r as int);
    }
    r % 4 == 0 && (r % 100 != 0 || r == 0)
}

proof fn lema_resto(y: int, k: int)
    ensures
        (y + 400 * k) % 400 == y % 400,
{
}

proof fn lema_resto_menor(y: int, r: int)
    requires
        r == y % 400,
    ensures
        r % 4 == y % 4,
        r % 100 == y % 100,
{
    assert(y == 400 * (y / 400) + r);
}

/// La etiqueta de un dia de un mes.
pub fn dia_de_mes(mes_ref: &str, d: u32) -> (r: String)
    ensures
        r@ == mes_ref@ + "-"@ + texto::decimal_ancho(d as nat, 2),
{
    texto::mas(
        texto::mas(mes_ref.to_owned(), "-"),
        texto::texto_ancho(d as u64, 2).as_str(),
    )
}

/// De los `n` primeros dias, los que no tienen ventas, con dos cifras.
pub open spec fn dias_sin_ventas(filas: Seq<i64>, n: nat) -> Seq<Seq<char>>
    decreases n,
{
    if n == 0 {
        seq![]
    } else {
        let previos = dias_sin_ventas(filas, (n - 1) as nat);
        if filas[n - 1] == 0 {
            previos.push(texto::decimal_ancho(n, 2))
        } else {
            previos
        }
    }
}

/// Cuantos archivos diarios estan completos entre los `n` primeros.
pub open spec fn diarios_completos(tamanos: Seq<Option<u64>>, n: nat) -> int
    decreases n,
{
    if n == 0 {
        0
    } else {
        diarios_completos(tamanos, (n - 1) as nat) + (if captura::mayor_que(
            tamanos[n - 1],
            captura::CSV_COMPLETO as int,
        ) {
            1int
        } else {
            0
        })
    }
}

/// Un mes esta bien con veinte dias de ventas, porque no todos los dias se vende.
pub open spec fn estado_mes(dias: int) -> Seq<char> {
    if dias == 0 {
        "VACIO"@
    } else if dias >= 20 {
        "OK"@
    } else {
        "PARCIAL"@
    }
}

pub open spec fn cinco(s: Seq<Seq<char>>) -> Seq<Seq<char>> {
    if s.len() <= 5 {
        s
    } else {
        s.take(5)
    }
}

/// Cuanto hay de un mes, dadas las ventas de cada dia y el tamano de cada archivo
/// diario.
pub fn get_completeness(
    mes_ref: &str,
    dias_con_data: i32,
    filas: i64,
    por_dia: &Vec<i64>,
    tamanos: &Vec<Option<u64>>,
) -> (r: CompletenessInfo)
    requires
        por_dia@.len() == tamanos@.len(),
        por_dia@.len() <= 31,
    ensures
        r.mes_ref@ == mes_ref@,
        r.dias_esperados == por_dia@.len(),
        r.dias_con_data == dias_con_data,
        r.dailies_en_disco == diarios_completos(tamanos@, tamanos@.len()),
        r.filas == filas,
        texto::textos(r.faltan@) == cinco(dias_sin_ventas(por_dia@, por_dia@.len())),
        r.estado@ == estado_mes(dias_con_data as int),
{
    let mut faltan: Vec<String> = Vec::new();
    let mut completos: i32 = 0;
    let mut i: usize = 0;
    assert(texto::textos(faltan@) =~= Seq::<Seq<char>>::empty());
    while i < por_dia.len()
        invariant
            0 <= i <= por_dia@.len() <= 31,
            por_dia@.len() == tamanos@.len(),
            texto::textos(faltan@) == cinco(dias_sin_ventas(por_dia@, i as nat)),
            completos == diarios_completos(tamanos@, i as nat),
            0 <= completos <= i,
        decreases por_dia@.len() - i,
    {
        let ghost previos = dias_sin_ventas(por_dia@, i as nat);
        let ghost antes = texto::textos(faltan@);
        assert(antes.len() == faltan@.len());
        if por_dia[i] == 0 && faltan.len() < 5 {
            let d = texto::texto_ancho(i as u64 + 1, 2);
            let ghost v = d@;
            faltan.push(d);
            assert(texto::textos(faltan@) =~= antes.push(v));
            assert(cinco(previos) == previos);
        } else if por_dia[i] == 0 {
            assert(cinco(previos.push(texto::decimal_ancho((i + 1) as nat, 2))) =~= cinco(
                previos,
            ));
        }
        if captura::es_mayor_que(tamanos[i], captura::CSV_COMPLETO) {
            completos = completos + 1;
        }
        i = i + 1;
    }
    let estado = if dias_con_data == 0 {
        "VACIO"
    } else if dias_con_data >= 20 {
        "OK"
    } else {
        "PARCIAL"
    };
    CompletenessInfo {
        mes_ref: mes_ref.to_owned(),
        dias_esperados: i as i32,
        dias_con_data,
        dailies_en_disco: completos,
        filas,
        faltan,
        estado: estado.to_owned(),
    }
}

// ---------------------------------------------------------------------------
// Importacion a mano
// ---------------------------------------------------------------------------

/// El dia que se importa tiene la forma `aaaa-mm-dd`: diez bytes.
pub fn dia_bien_escrito(day: &str) -> (r: bool)
    ensures
        r == (texto::bytes_de(day@) == 10),
{
    texto::largo_bytes(day) == 10
}

/// El mes que se importa tiene la forma `aaaa-mm`: siete bytes y un guion.
pub open spec fn forma_mes(month: Seq<char>) -> bool {
    texto::bytes_de(month) == 7 && texto::contiene(month, "-"@)
}

pub fn mes_bien_escrito(month: &str) -> (r: bool)
    ensures
        r == forma_mes(month@),
{
    proof {
        reveal_strlit("-");
    }
    texto::largo_bytes(month) == 7 && texto::contiene_texto(month, "-")
}

/// El mes de un dia: sus siete primeros bytes; nada si parten un caracter.
pub fn mes_de_dia(day: &str) -> (r: Option<String>)
    ensures
        models::texto_opcional(r) == texto::corte_bytes(day@, 0, 7),
{
    texto::cortar_bytes(day, 0, 7)
}

/// Los dias menos el que se acaba de importar.
pub open spec fn sin_dia(dias: Seq<Seq<char>>, day: Seq<char>) -> Seq<Seq<char>>
    decreases dias.len(),
{
    if dias.len() == 0 {
        seq![]
    } else {
        let previos = sin_dia(dias.drop_last(), day);
        if dias.last() == day {
            previos
        } else {
            previos.push(dias.last())
        }
    }
}

pub fn quitar_dia(dias: &Vec<String>, day: &str) -> (r: Vec<String>)
    ensures
        texto::textos(r@) == sin_dia(texto::textos(dias@), day@),
        !texto::textos(r@).contains(day@),
{
    let ghost ds = texto::textos(dias@);
    let mut r: Vec<String> = Vec::new();
    let mut i: usize = 0;
    assert(ds.take(0) =~= Seq::<Seq<char>>::empty());
    assert(texto::textos(r@) =~= Seq::<Seq<char>>::empty());
    while i < dias.len()
        invariant
            0 <= i <= dias@.len(),
            ds == texto::textos(dias@),
            texto::textos(r@) == sin_dia(ds.take(i as int), day@),
            !texto::textos(r@).contains(day@),
        decreases dias@.len() - i,
    {
        assert(ds.take(i + 1).drop_last() =~= ds.take(i as int));
        assert(ds[i as int] == dias@[i as int]@);
        let ghost antes = texto::textos(r@);
        if !texto::iguales(dias[i].as_str(), day) {
            r.push(dias[i].clone());
            assert(texto::textos(r@) =~= antes.push(ds[i as int]));
        }
        i = i + 1;
    }
    assert(ds.take(i as int) =~= ds);
    r
}

/// Cuantas veces aparece cada texto, en el orden en que aparecen por primera vez.
pub open spec fn anotado(c: Seq<(Seq<char>, nat)>, t: Seq<char>) -> Seq<(Seq<char>, nat)>
    decreases c.len(),
{
    if c.len() == 0 {
        seq![(t, 1nat)]
    } else if c[0].0 == t {
        seq![(t, c[0].1 + 1)] + c.drop_first()
    } else {
        seq![c[0]] + anotado(c.drop_first(), t)
    }
}

pub open spec fn recuento(ts: Seq<Seq<char>>) -> Seq<(Seq<char>, nat)>
    decreases ts.len(),
{
    if ts.len() == 0 {
        seq![]
    } else {
        anotado(recuento(ts.drop_last()), ts.last())
    }
}

pub open spec fn vista_recuento(v: Seq<(String, usize)>) -> Seq<(Seq<char>, nat)> {
    v.map_values(|p: (String, usize)| (p.0@, p.1 as nat))
}

pub open spec fn suma(c: Seq<(Seq<char>, nat)>) -> nat
    decreases c.len(),
{
    if c.len() == 0 {
        0
    } else {
        c[0].1 + suma(c.drop_first())
    }
}

proof fn lema_anotado(c: Seq<(Seq<char>, nat)>, t: Seq<char>, i: int)
    requires
        0 <= i <= c.len(),
        forall|k: int| 0 <= k < i ==> (#[trigger] c[k]).0 != t,
        i < c.len() ==> c[i].0 == t,
    ensures
        anotado(c, t) == (if i < c.len() {
            c.update(i, (t, c[i].1 + 1))
        } else {
            c.push((t, 1nat))
        }),
        suma(anotado(c, t)) == suma(c) + 1,
    decreases c.len(),
{
    if c.len() == 0 {
        assert(anotado(c, t) =~= c.push((t, 1nat)));
        reveal_with_fuel(suma, 2);
        assert(anotado(c, t).drop_first() =~= Seq::<(Seq<char>, nat)>::empty());
    } else if i == 0 {
        assert(anotado(c, t) =~= c.update(0, (t, c[0].1 + 1)));
        assert(anotado(c, t).drop_first() =~= c.drop_first());
    } else {
        let d = c.drop_first();
        assert forall|k: int| 0 <= k < i - 1 implies (#[trigger] d[k]).0 != t by {
            assert(c[k + 1].0 != t);
        }
        lema_anotado(d, t, i - 1);
        if i < c.len() {
            assert(anotado(c, t) =~= c.update(i, (t, c[i].1 + 1)));
        } else {
            assert(anotado(c, t) =~= c.push((t, 1nat)));
        }
        assert(anotado(c, t).drop_first() =~= anotado(d, t));
    }
}

/// El recuento suma tantas apariciones como textos hay.
pub proof fn ley_recuento(ts: Seq<Seq<char>>)
    ensures
        suma(recuento(ts)) == ts.len(),
    decreases ts.len(),
{
    if ts.len() > 0 {
        ley_recuento(ts.drop_last());
        let c = recuento(ts.drop_last());
        let i = lema_lugar(c, ts.last());
        lema_anotado(c, ts.last(), i);
    }
}

proof fn lema_lugar(c: Seq<(Seq<char>, nat)>, t: Seq<char>) -> (i: int)
    ensures
        0 <= i <= c.len(),
        forall|k: int| 0 <= k < i ==> (#[trigger] c[k]).0 != t,
        i < c.len() ==> c[i].0 == t,
    decreases c.len(),
{
    if c.len() == 0 || c[0].0 == t {
        0
    } else {
        let d = c.drop_first();
        let j = lema_lugar(d, t);
        assert forall|k: int| 0 <= k < j + 1 implies (#[trigger] c[k]).0 != t by {
            if k > 0 {
                assert(d[k - 1].0 != t);
            }
        }
        j + 1
    }
}

fn anotar(c: Vec<(String, usize)>, t: &str) -> (r: Vec<(String, usize)>)
    requires
        forall|k: int| 0 <= k < c@.len() ==> (#[trigger] c@[k]).1 < usize::MAX,
    ensures
        vista_recuento(r@) == anotado(vista_recuento(c@), t@),
{
    let mut c = c;
    let ghost vs = vista_recuento(c@);
    let mut i: usize = 0;
    while i < c.len() && !texto::iguales(c[i].0.as_str(), t)
        invariant
            0 <= i <= c@.len(),
            vs == vista_recuento(c@),
            forall|k: int| 0 <= k < i ==> (#[trigger] vs[k]).0 != t@,
        decreases c@.len() - i,
    {
        assert(vs[i as int] == (c@[i as int].0@, c@[i as int].1 as nat));
        i = i + 1;
    }
    proof {
        if i < c@.len() {
            assert(vs[i as int] == (c@[i as int].0@, c@[i as int].1 as nat));
        }
        lema_anotado(vs, t@, i as int);
    }
    if i < c.len() {
        let n: usize = c[i].1 + 1;
        c.set(i, (t.to_owned(), n));
        assert(vista_recuento(c@) =~= vs.update(i as int, (t@, n as nat)));
    } else {
        c.push((t.to_owned(), 1));
        assert(vista_recuento(c@) =~= vs.push((t@, 1nat)));
    }
    c
}

proof fn lema_cota(c: Seq<(Seq<char>, nat)>, k: int)
    requires
        0 <= k < c.len(),
    ensures
        c[k].1 <= suma(c),
    decreases c.len(),
{
    if k > 0 {
        assert(c.drop_first()[k - 1] == c[k]);
        lema_cota(c.drop_first(), k - 1);
    }
}

/// El recuento de unos textos.
pub fn contar(ts: &Vec<String>) -> (r: Vec<(String, usize)>)
    ensures
        vista_recuento(r@) == recuento(texto::textos(ts@)),
{
    let ghost vs = texto::textos(ts@);
    let n: usize = ts.len();
    let mut r: Vec<(String, usize)> = Vec::new();
    let mut i: usize = 0;
    assert(vs.take(0) =~= Seq::<Seq<char>>::empty());
    assert(vista_recuento(r@) =~= Seq::<(Seq<char>, nat)>::empty());
    while i < n
        invariant
            0 <= i <= n == ts@.len(),
            vs == texto::textos(ts@),
            vista_recuento(r@) == recuento(vs.take(i as int)),
        decreases n - i,
    {
        proof {
            assert(vs.take(i + 1).drop_last() =~= vs.take(i as int));
            assert(vs[i as int] == ts@[i as int]@);
            ley_recuento(vs.take(i as int));
            assert forall|k: int| 0 <= k < r@.len() implies (#[trigger] r@[k]).1 < usize::MAX by {
                lema_cota(vista_recuento(r@), k);
            }
        }
        r = anotar(r, ts[i].as_str());
        i = i + 1;
    }
    assert(vs.take(i as int) =~= vs);
    r
}

/// Dias tras el primero con datos en los que la factura de una nota puede ser
/// anterior a lo que hay.
pub const DIAS_VENTANA: i64 = 60;

/// El tipo de documento dice que es una nota.
pub open spec fn dice_nota(tpo_doc: Seq<char>) -> bool {
    texto::contiene(tpo_doc, "NCR"@) || texto::contiene(tpo_doc, "NDB"@)
}

/// La factura que hay que buscar para saber como esta la referencia de una nota.
pub open spec fn busca_factura(v: VentaVista) -> bool {
    dice_nota(v.tpo_doc) && texto::recortado(v.referencia).len() > 0 && v.factura_ref_serie.len()
        > 0 && v.factura_ref_nro.len() > 0
}

/// Como esta la referencia de una nota: sin factura, con ella en la base, anterior a
/// lo que hay o pendiente.
pub open spec fn estado_referencia(v: VentaVista, existe: bool) -> Option<Seq<char>> {
    if !dice_nota(v.tpo_doc) {
        None
    } else if !busca_factura(v) {
        Some("NO_ENCONTRADA"@)
    } else if existe {
        Some("REFERENCIA_OK"@)
    } else if v.fecha_orig.numero() < fecha::primera_fecha().numero() + DIAS_VENTANA {
        Some("DOCUMENTO_FUERA_DE_VENTANA"@)
    } else {
        Some("PENDIENTE_DE_ERP"@)
    }
}

pub fn hay_que_buscar(v: &Venta) -> (r: bool)
    ensures
        r == busca_factura(v@),
{
    proof {
        reveal_strlit("NCR");
        reveal_strlit("NDB");
    }
    let util = texto::recortar(v.referencia.as_str());
    (texto::contiene_texto(v.tpo_doc.as_str(), "NCR") || texto::contiene_texto(
        v.tpo_doc.as_str(),
        "NDB",
    )) && util.as_str().unicode_len() > 0 && v.factura_ref_serie.as_str().unicode_len() > 0
        && v.factura_ref_nro.as_str().unicode_len() > 0
}

pub fn referencia_de(v: &Venta, existe: bool) -> (r: Option<&'static str>)
    requires
        v.fecha_orig.valida(),
    ensures
        match estado_referencia(v@, existe) {
            Some(s) => r matches Some(t) && t@ == s,
            None => r is None,
        },
{
    proof {
        reveal_strlit("NCR");
        reveal_strlit("NDB");
    }
    let nota = texto::contiene_texto(v.tpo_doc.as_str(), "NCR") || texto::contiene_texto(
        v.tpo_doc.as_str(),
        "NDB",
    );
    if !nota {
        return None;
    }
    if !hay_que_buscar(v) {
        return Some("NO_ENCONTRADA");
    }
    if existe {
        return Some("REFERENCIA_OK");
    }
    let minima = fecha::min_available_date();
    let n: i64 = fecha::dias_de_a(minima, v.fecha_orig);
    if n < DIAS_VENTANA {
        Some("DOCUMENTO_FUERA_DE_VENTANA")
    } else {
        Some("PENDIENTE_DE_ERP")
    }
}

/// La vista previa de un libro que se importa a mano.
#[derive(Debug, Clone)]
pub struct PreviewResult {
    pub file_name: String,
    pub total_rows: usize,
    pub insertable_rows: usize,
    pub tipo_desglose: Vec<(String, usize)>,
    pub referencia_status: Vec<(String, usize)>,
    pub preview_rows: Vec<Vec<String>>,
    pub warnings: Vec<String>,
}

/// Los tipos de operacion de unas ventas.
pub open spec fn tipos(vs: Seq<VentaVista>) -> Seq<Seq<char>> {
    vs.map_values(|v: VentaVista| v.tipo_operacion)
}

/// Los estados de las referencias de las `n` primeras ventas.
pub open spec fn referencias(vs: Seq<VentaVista>, existen: Seq<bool>, n: nat) -> Seq<Seq<char>>
    decreases n,
{
    if n == 0 {
        seq![]
    } else {
        let previas = referencias(vs, existen, (n - 1) as nat);
        match estado_referencia(vs[n - 1], existen[n - 1]) {
            Some(s) => previas.push(s),
            None => previas,
        }
    }
}

/// Lo que se ensena de una venta.
pub open spec fn fila_previa(v: VentaVista, soles: Seq<char>) -> Seq<Seq<char>> {
    seq![
        v.tpo_doc,
        v.serie_doc,
        v.nro_doc,
        v.id_articulo,
        soles,
        fecha::texto_iso(v.fecha_orig),
    ]
}

pub open spec fn filas_previas(vs: Seq<VentaVista>, soles: Seq<Seq<char>>) -> Seq<Seq<Seq<char>>> {
    Seq::new(soles.len(), |i: int| fila_previa(vs[i], soles[i]))
}

fn fila_de(v: &Venta, soles: &str) -> (r: Vec<String>)
    requires
        v.fecha_orig.valida(),
    ensures
        texto::textos(r@) == fila_previa(v@, soles@),
{
    let r: Vec<String> = vec![
        v.tpo_doc.clone(),
        v.serie_doc.clone(),
        v.nro_doc.clone(),
        v.id_articulo.clone(),
        soles.to_owned(),
        fecha::fecha_iso(v.fecha_orig),
    ];
    assert(texto::textos(r@) =~= fila_previa(v@, soles@));
    r
}

/// Ventas que se ensenan.
pub open spec fn ensenadas(n: int) -> int {
    if n < 3 {
        n
    } else {
        3
    }
}

/// La vista previa de unas ventas. `existen` dice si la factura de cada una esta en la
/// base y `soles` es el importe escrito de las tres primeras.
pub fn preview_import(
    file_name: &str,
    ventas: &Vec<Venta>,
    existen: &Vec<bool>,
    soles: &Vec<String>,
) -> (r: PreviewResult)
    requires
        existen@.len() == ventas@.len(),
        soles@.len() == ensenadas(ventas@.len() as int),
        forall|i: int| 0 <= i < ventas@.len() ==> (#[trigger] ventas@[i]).fecha_orig.valida(),
        ventas@.len() * 2 <= usize::MAX,
    ensures
        ({
            let vs = models::vistas(ventas@);
            let refs = referencias(vs, existen@, vs.len());
            &&& r.file_name@ == file_name@
            &&& r.insertable_rows == vs.len()
            &&& r.total_rows == vs.len() + refs.len()
            &&& vista_recuento(r.tipo_desglose@) == recuento(tipos(vs))
            &&& vista_recuento(r.referencia_status@) == recuento(refs)
            &&& tabla::filas_de(r.preview_rows@) == filas_previas(vs, texto::textos(soles@))
            &&& texto::textos(r.warnings@) == (if vs.len() == 0 {
                seq!["Parse devolvio 0 filas \u{2014} verifica que sea Estadistica11"@]
            } else {
                seq![]
            })
        }),
{
    let ghost vs = models::vistas(ventas@);
    let n: usize = ventas.len();
    let mut ts: Vec<String> = Vec::new();
    let mut rs: Vec<String> = Vec::new();
    let mut i: usize = 0;
    assert(texto::textos(rs@) =~= Seq::<Seq<char>>::empty());
    while i < n
        invariant
            0 <= i <= n == ventas@.len(),
            existen@.len() == n,
            vs == models::vistas(ventas@),
            forall|k: int| 0 <= k < n ==> (#[trigger] ventas@[k]).fecha_orig.valida(),
            ts@.len() == i,
            forall|k: int| 0 <= k < i ==> (#[trigger] ts@[k])@ == vs[k].tipo_operacion,
            texto::textos(rs@) == referencias(vs, existen@, i as nat),
            rs@.len() <= i,
        decreases n - i,
    {
        assert(vs[i as int] == ventas@[i as int]@);
        ts.push(ventas[i].tipo_operacion.clone());
        let ghost antes = texto::textos(rs@);
        match referencia_de(&ventas[i], existen[i]) {
            Some(s) => {
                rs.push(s.to_owned());
                assert(texto::textos(rs@) =~= antes.push(s@));
            },
            None => {},
        }
        i = i + 1;
    }
    assert(texto::textos(ts@) =~= tipos(vs));
    assert(texto::textos(rs@).len() == rs@.len());
    let mut preview_rows: Vec<Vec<String>> = Vec::new();
    let mut j: usize = 0;
    while j < soles.len()
        invariant
            0 <= j <= soles@.len() <= ventas@.len(),
            vs == models::vistas(ventas@),
            forall|k: int|
                0 <= k < ventas@.len() ==> (#[trigger] ventas@[k]).fecha_orig.valida(),
            preview_rows@.len() == j,
            forall|k: int|
                0 <= k < j ==> texto::textos((#[trigger] preview_rows@[k])@) == fila_previa(
                    vs[k],
                    soles@[k]@,
                ),
        decreases soles@.len() - j,
    {
        assert(vs[j as int] == ventas@[j as int]@);
        preview_rows.push(fila_de(&ventas[j], soles[j].as_str()));
        j = j + 1;
    }
    assert(tabla::filas_de(preview_rows@) =~= filas_previas(vs, texto::textos(soles@)));
    let mut warnings: Vec<String> = Vec::new();
    if n == 0 {
        warnings.push("Parse devolvio 0 filas \u{2014} verifica que sea Estadistica11".to_owned());
        assert(texto::textos(warnings@) =~= seq![
            "Parse devolvio 0 filas \u{2014} verifica que sea Estadistica11"@,
        ]);
    } else {
        assert(texto::textos(warnings@) =~= Seq::<Seq<char>>::empty());
    }
    PreviewResult {
        file_name: file_name.to_owned(),
        total_rows: n + rs.len(),
        insertable_rows: n,
        tipo_desglose: contar(&ts),
        referencia_status: contar(&rs),
        preview_rows,
        warnings,
    }
}

/// Que es un archivo de la carpeta de datos.
#[derive(Debug, Clone, Copy, PartialEq, Eq, Structural)]
pub enum Fuente {
    Csv,
    /// Un libro, que antes se convierte en CSV.
    Libro,
    Otra,
}

/// Lo que es un archivo, por su extension.
pub open spec fn fuente(ext: Option<Seq<char>>) -> Fuente {
    if ext == Some("csv"@) {
        Fuente::Csv
    } else if ext == Some("xls"@) || ext == Some("xlsx"@) {
        Fuente::Libro
    } else {
        Fuente::Otra
    }
}

pub fn fuente_de(ext: Option<&str>) -> (r: Fuente)
    ensures
        r == fuente(
            match ext {
                Some(s) => Some(s@),
                None => None,
            },
        ),
{
    match ext {
        None => Fuente::Otra,
        Some(s) => if texto::iguales(s, "csv") {
            Fuente::Csv
        } else if texto::iguales(s, "xls") || texto::iguales(s, "xlsx") {
            Fuente::Libro
        } else {
            Fuente::Otra
        },
    }
}

// ---------------------------------------------------------------------------
// Nombres con fecha
// ---------------------------------------------------------------------------

/// El nombre de la copia de la base: el dia y la hora de Peru.
pub open spec fn nombre_copia(i: fecha::Instante) -> Seq<char> {
    "historial_"@ + texto::decimal_ancho(i.anho as nat, 4) + texto::decimal_ancho(i.mes as nat, 2)
        + texto::decimal_ancho(i.dia as nat, 2) + "_"@ + texto::decimal_ancho(i.hora as nat, 2)
        + texto::decimal_ancho(i.minuto as nat, 2) + ".db"@
}

pub fn nombre_respaldo(secs: u64) -> (r: String)
    ensures
        exists|i: fecha::Instante| #[trigger]
            i.es(fecha::segundos_peru(secs as int)) && r@ == nombre_copia(i),
{
    let i = fecha::instante_peru(secs);
    let r = texto::mas("historial_".to_owned(), texto::texto_ancho(i.anho, 4).as_str());
    let r = texto::mas(r, texto::texto_ancho(i.mes, 2).as_str());
    let r = texto::mas(texto::mas(r, texto::texto_ancho(i.dia, 2).as_str()), "_");
    let r = texto::mas(r, texto::texto_ancho(i.hora, 2).as_str());
    let r = texto::mas(r, texto::texto_ancho(i.minuto, 2).as_str());
    texto::mas(r, ".db")
}

/// `aaaa-mm-dd` de un instante.
pub open spec fn dia_iso(i: fecha::Instante) -> Seq<char> {
    texto::decimal_ancho(i.anho as nat, 4) + "-"@ + texto::decimal_ancho(i.mes as nat, 2) + "-"@
        + texto::decimal_ancho(i.dia as nat, 2)
}

/// Desde que dia se sincroniza: el ultimo capturado o, si no hay, hoy en Peru.
pub fn dia_de_sincronizar(last: Option<String>, secs: u64) -> (r: String)
    ensures
        match last {
            Some(s) => r@ == s@,
            None => exists|i: fecha::Instante| #[trigger]
                i.es(fecha::segundos_peru(secs as int)) && r@ == dia_iso(i),
        },
{
    match last {
        Some(s) => s,
        None => {
            let i = fecha::instante_peru(secs);
            let r = texto::mas(texto::texto_ancho(i.anho, 4), "-");
            let r = texto::mas(texto::mas(r, texto::texto_ancho(i.mes, 2).as_str()), "-");
            texto::mas(r, texto::texto_ancho(i.dia, 2).as_str())
        },
    }
}

/// Veces que se intenta borrar la base.
pub const INTENTOS_BORRADO: u32 = 5;

/// Tras un intento de borrar la base, si hay que esperar y probar otra vez.
pub fn reintentar_borrado(intento: u32, borrada: bool) -> (r: bool)
    ensures
        r == (!borrada && intento < INTENTOS_BORRADO),
{
    !borrada && intento < INTENTOS_BORRADO
}

// ---------------------------------------------------------------------------
// Leyes
// ---------------------------------------------------------------------------

/// Los archivos de un mes tienen por nombre su mes, de siete caracteres; los capturados, el que
/// sea; los de un trozo no son ni de un mes ni capturados.
pub proof fn ley_nombres_de_archivo(m: Seq<char>, a: Seq<char>, b: Seq<char>)
    requires
        texto::es_ascii(m),
        !texto::contiene("ventas_"@ + m + ".csv"@, "-p"@),
    ensures
        capturado("ventas_"@ + m + ".csv"@),
        m.len() == 7 <==> mensual("ventas_"@ + m + ".csv"@),
        !capturado(a + "-p"@ + b) && !mensual(a + "-p"@ + b),
        de_datos("ventas_"@ + a + ".csv"@),
        de_datos("ventas_"@ + a + ".xls"@),
        de_datos("ventas_"@ + a + ".html"@),
        de_datos("summary"@ + a),
        de_datos("failed_"@ + a + ".json"@),
        capturado(a) ==> de_datos(a) && texto::empieza(a, "ventas_"@) && texto::termina(a, ".csv"@),
        mensual(a) ==> capturado(a),
        de_datos(a) ==> texto::empieza(a, "ventas_"@) || texto::empieza(a, "summary"@)
            || texto::empieza(a, "failed_"@),
{
    let n = "ventas_"@ + m + ".csv"@;
    lema_nombre("ventas_"@, m, ".csv"@);
    lema_nombre("ventas_"@, a, ".csv"@);
    lema_nombre("ventas_"@, a, ".xls"@);
    lema_nombre("ventas_"@, a, ".html"@);
    lema_nombre("failed_"@, a, ".json"@);
    texto::ley_contiene(Seq::empty(), "summary"@, a);
    texto::ley_contiene(a, "-p"@, b);
    reveal_strlit("ventas_");
    reveal_strlit(".csv");
    assert(texto::es_ascii(n));
    texto::ley_bytes(n, 'a');
}

proof fn lema_nombre(a: Seq<char>, m: Seq<char>, b: Seq<char>)
    ensures
        texto::empieza(a + m + b, a),
        texto::termina(a + m + b, b),
{
    texto::ley_contiene(Seq::empty(), a, m + b);
    assert(a + (m + b) =~= a + m + b);
    texto::ley_contiene(a + m, b, Seq::empty());
}

/// Al limpiar se borra el libro cuyo CSV esta completo y el CSV de un trozo, y nada mas.
pub proof fn ley_borrados(nombre: Seq<char>, csv: Option<u64>, a: Seq<char>, b: Seq<char>)
    ensures
        !texto::termina(nombre, ".csv"@) ==> borrados(nombre, false, csv) == 0,
        !texto::contiene(nombre, "-p"@) ==> borrados(nombre, false, csv) == 0,
        borrados(a + "-p"@ + b + ".csv"@, false, csv) == 1,
        csv is None ==> borrados(nombre, true, csv) == borrados(nombre, false, csv),
        csv matches Some(n) ==> (n <= 1000 ==> borrados(nombre, true, csv) == borrados(
            nombre,
            false,
            csv,
        )) && (n > 1000 ==> borrados(nombre, true, csv) == borrados(nombre, false, csv) + 1),
{
    let s = a + "-p"@ + b + ".csv"@;
    texto::ley_contiene(a, "-p"@, b + ".csv"@);
    assert(a + "-p"@ + (b + ".csv"@) =~= s);
    texto::ley_contiene(a + "-p"@ + b, ".csv"@, Seq::empty());
}

/// El aviso de un mes que fallo lleva el mes entre su comienzo y su final.
pub proof fn ley_aviso_de_mes(m: Seq<char>)
    requires
        !texto::contiene(m + ".json"@, "failed_"@),
        !texto::contiene(m + ".json"@.drop_last(), ".json"@),
    ensures
        mes_aviso("failed_"@ + m + ".json"@) == Some(m),
{
    reveal_strlit("failed_");
    reveal_strlit(".json");
    let nada = Seq::<char>::empty();
    let f = "failed_"@;
    let j = ".json"@;
    let s = f + m + j;
    let t = m + j;
    lema_nombre(f, m, j);
    assert(s.subrange(0, 7) =~= f);
    texto::ley_primera_aparicion(s, f, 0, 0);
    texto::ley_reemplazo(s, f, nada);
    assert(s.skip(7) =~= t);
    texto::ley_reemplazo(t, f, nada);
    texto::lema_indice(t, f, 0);
    assert(s.take(0) + nada + t =~= t);
    assert(texto::reemplazado(s, f, nada) == t);
    let n = m.len() as int;
    let casi = m + j.drop_last();
    assert(t.subrange(n, n + 5) =~= j);
    assert forall|i: int| 0 <= i < n implies !texto::aparece(t, j, i) by {
        if texto::aparece(t, j, i) {
            assert(casi.subrange(i, i + 5) =~= t.subrange(i, i + 5));
            assert(texto::aparece(casi, j, i));
        }
    }
    texto::ley_primera_aparicion(t, j, 0, n);
    texto::ley_reemplazo(t, j, nada);
    assert(t.take(n) =~= m);
    assert(t.skip(n + 5) =~= nada);
    assert(texto::reemplazado(nada, j, nada) =~= nada);
    assert(m + nada + nada =~= m);
}

/// El orden de los nombres es total: de dos distintos uno va antes, y solo uno; y lo que va
/// delante de ambos no cuenta.
pub proof fn ley_orden_de_nombres(a: Seq<char>, b: Seq<char>, c: Seq<char>)
    ensures
        !antes(a, a),
        a != b ==> antes(a, b) || antes(b, a),
        !(antes(a, b) && antes(b, a)),
        antes(a, b) && antes(b, c) ==> antes(a, c),
        antes(c + a, c + b) <==> antes(a, b),
        b.len() > 0 ==> antes(a, a + b),
        a.len() > 0 && b.len() > 0 && a[0] < b[0] ==> antes(a, b),
{
    lema_no_antes_de_si(a);
    if antes(a, b) && antes(b, a) {
        lema_antes_transitivo(a, b, a);
    }
    if antes(a, b) && antes(b, c) {
        lema_antes_transitivo(a, b, c);
    }
    lema_alguno_antes(a, b);
    lema_antes_comun(c, a, b);
    lema_antes_prefijo(a, b);
}

proof fn lema_alguno_antes(a: Seq<char>, b: Seq<char>)
    ensures
        a != b ==> antes(a, b) || antes(b, a),
    decreases a.len(),
{
    if a.len() == 0 && b.len() == 0 {
        assert(a =~= b);
    } else if a.len() > 0 && b.len() > 0 && a[0] == b[0] {
        lema_alguno_antes(a.drop_first(), b.drop_first());
        if a.drop_first() == b.drop_first() {
            assert(a =~= seq![a[0]] + a.drop_first());
            assert(b =~= seq![b[0]] + b.drop_first());
        }
    }
}

proof fn lema_antes_comun(c: Seq<char>, a: Seq<char>, b: Seq<char>)
    ensures
        antes(c + a, c + b) <==> antes(a, b),
    decreases c.len(),
{
    if c.len() == 0 {
        assert(c + a =~= a);
        assert(c + b =~= b);
    } else {
        assert((c + a).drop_first() =~= c.drop_first() + a);
        assert((c + b).drop_first() =~= c.drop_first() + b);
        lema_antes_comun(c.drop_first(), a, b);
    }
}

proof fn lema_antes_prefijo(a: Seq<char>, b: Seq<char>)
    ensures
        b.len() > 0 ==> antes(a, a + b),
    decreases a.len(),
{
    if a.len() > 0 {
        assert((a + b).drop_first() =~= a.drop_first() + b);
        lema_antes_prefijo(a.drop_first(), b);
    }
}

/// La muestra tiene la cabecera y detras las filas, celda a celda, sin blancos en los extremos.
pub proof fn ley_muestra(cabecera: Seq<Seq<char>>, filas: Seq<Seq<Seq<char>>>, i: int, k: int)
    ensures
        muestra(cabecera, filas).len() == filas.len() + 1,
        muestra(cabecera, filas)[0].len() == cabecera.len(),
        0 <= k < cabecera.len() ==> muestra(cabecera, filas)[0][k] == texto::recortado(cabecera[k]),
        0 <= i < filas.len() ==> muestra(cabecera, filas)[i + 1].len() == filas[i].len(),
        0 <= i < filas.len() && 0 <= k < filas[i].len() ==> muestra(cabecera, filas)[i + 1][k]
            == texto::recortado(filas[i][k]),
{
    let todas = seq![cabecera] + filas;
    assert(todas[0] == cabecera);
    if 0 <= i < filas.len() {
        assert(todas[i + 1] == filas[i]);
    }
}

/// Un mes se lee con su ano y su mes; sin una sola raya no es un mes.
pub proof fn ley_anho_y_mes(y: nat, m: nat, s: Seq<char>)
    requires
        y <= i32::MAX,
        m <= u32::MAX,
    ensures
        anho_y_mes(texto::decimal(y) + seq!['-'] + texto::decimal(m)) == Some((y as int, m as int)),
        !s.contains('-') ==> anho_y_mes(s) is None,
{
    let nada = Seq::<char>::empty();
    let a = texto::decimal(y);
    let b = texto::decimal(m);
    texto::ley_decimal(y, i32::MAX as int);
    texto::ley_decimal(m, u32::MAX as int);
    assert forall|i: int| 0 <= i < a.len() implies #[trigger] a[i] != '-' by {
        assert(texto::es_cifra(a[i]));
    }
    assert forall|i: int| 0 <= i < b.len() implies #[trigger] b[i] != '-' by {
        assert(texto::es_cifra(b[i]));
    }
    lema_una_parte(a);
    lema_una_parte(b);
    texto::lema_partes_suma(nada, a, b, '-');
    let ps = texto::partes(a + seq!['-'] + b, '-');
    assert(ps =~= seq![a, b]);
    assert(texto::es_cifra(a[0]));
    if !s.contains('-') {
        assert forall|i: int| 0 <= i < s.len() implies #[trigger] s[i] != '-' by {
            assert(s.contains(s[i]));
        }
        lema_una_parte(s);
    }
}

proof fn lema_una_parte(s: Seq<char>)
    requires
        forall|i: int| 0 <= i < s.len() ==> #[trigger] s[i] != '-',
    ensures
        texto::partes(s, '-') == seq![s],
{
    let nada = Seq::<char>::empty();
    texto::lema_partes_tramo(nada, s, nada, '-');
    assert(s + nada =~= s);
    assert(nada + s =~= s);
}

/// De un mes se esperan los dias que tiene, y treinta si no es un mes.
pub proof fn ley_dias_esperados(y: int, m: int)
    ensures
        1 <= m <= 12 ==> dias_esperados(y, m) == fecha::dias_del_mes(y, m),
        m < 1 || m > 12 ==> dias_esperados(y, m) == 30,
{
}

/// Los dias sin ventas son los que no tienen filas, cada uno con su numero y en su orden; los
/// completos son los que pasan de mil bytes.
pub proof fn ley_dias_contados(filas: Seq<i64>, tamanos: Seq<Option<u64>>, n: nat)
    ensures
        dias_sin_ventas(filas, 0).len() == 0,
        filas[n as int] == 0 ==> dias_sin_ventas(filas, n + 1) == dias_sin_ventas(filas, n).push(
            texto::decimal_ancho(n + 1, 2),
        ),
        filas[n as int] != 0 ==> dias_sin_ventas(filas, n + 1) == dias_sin_ventas(filas, n),
        diarios_completos(tamanos, 0) == 0,
        diarios_completos(tamanos, n + 1) - diarios_completos(tamanos, n) == (
        match tamanos[n as int] {
            Some(t) => if t > 1000 {
                1int
            } else {
                0
            },
            None => 0,
        }),
{
}

/// El estado de un mes segun los dias con datos: vacio sin ninguno, bien desde veinte y parcial
/// entre medias.
pub proof fn ley_estado_de_mes(dias: int)
    requires
        dias >= 0,
    ensures
        estado_mes(dias) == "VACIO"@ <==> dias == 0,
        estado_mes(dias) == "OK"@ <==> dias >= 20,
        estado_mes(dias) == "PARCIAL"@ <==> 0 < dias < 20,
{
    reveal_strlit("VACIO");
    reveal_strlit("OK");
    reveal_strlit("PARCIAL");
    assert("VACIO"@.len() == 5 && "OK"@.len() == 2 && "PARCIAL"@.len() == 7);
}

/// Se ensenan los cinco primeros, o todos si no hay mas, y de las filas las tres primeras.
pub proof fn ley_primeros(s: Seq<Seq<char>>, n: int)
    ensures
        s.len() <= 5 ==> cinco(s) == s,
        s.len() > 5 ==> cinco(s).len() == 5 && cinco(s) + s.skip(5) == s,
        ensenadas(n) <= n && ensenadas(n) <= 3,
        ensenadas(n) == n || ensenadas(n) == 3,
{
    if s.len() > 5 {
        assert(s.take(5) + s.skip(5) =~= s);
    }
}

/// Un mes tiene siete caracteres y una raya.
pub proof fn ley_forma_de_mes(m: Seq<char>)
    requires
        texto::es_ascii(m),
    ensures
        forma_mes(m) <==> m.len() == 7 && m.contains('-'),
{
    texto::ley_bytes(m, 'a');
    reveal_strlit("-");
    if m.contains('-') {
        let i = choose|i: int| 0 <= i < m.len() && m[i] == '-';
        assert(m.subrange(i, i + 1) =~= "-"@);
        assert(texto::aparece(m, "-"@, i));
    } else if texto::contiene(m, "-"@) {
        let i = choose|i: int| texto::aparece(m, "-"@, i);
        assert(m.subrange(i, i + 1)[0] == m[i]);
    }
}

/// Quitar un dia deja los demas, en su orden.
pub proof fn ley_sin_dia(dias: Seq<Seq<char>>, day: Seq<char>)
    ensures
        sin_dia(dias, day) == dias.filter(|d: Seq<char>| d != day),
        !sin_dia(dias, day).contains(day),
    decreases dias.len(),
{
    reveal(Seq::filter);
    if dias.len() > 0 {
        ley_sin_dia(dias.drop_last(), day);
        let r = sin_dia(dias, day);
        let q = sin_dia(dias.drop_last(), day);
        if r.contains(day) {
            let i = choose|i: int| 0 <= i < r.len() && r[i] == day;
            if i < q.len() {
                assert(q[i] == day);
            }
        }
    }
}

/// Las apariciones de un texto.
pub open spec fn apariciones(ts: Seq<Seq<char>>, t: Seq<char>) -> nat
    decreases ts.len(),
{
    if ts.len() == 0 {
        0
    } else {
        apariciones(ts.drop_last(), t) + (if ts.last() == t {
            1nat
        } else {
            0
        })
    }
}

/// El recuento da de cada texto cuantas veces sale, y una sola vez cada texto.
pub proof fn ley_cada_cuenta(ts: Seq<Seq<char>>)
    ensures
        forall|k: int|
            0 <= k < recuento(ts).len() ==> (#[trigger] recuento(ts)[k]).1 == apariciones(
                ts,
                recuento(ts)[k].0,
            ),
        forall|i: int, j: int|
            0 <= i < j < recuento(ts).len() ==> (#[trigger] recuento(ts)[i]).0 != (
            #[trigger] recuento(ts)[j]).0,
        forall|t: Seq<char>|
            #[trigger] apariciones(ts, t) > 0 ==> exists|k: int|
                0 <= k < recuento(ts).len() && (#[trigger] recuento(ts)[k]).0 == t,
    decreases ts.len(),
{
    if ts.len() > 0 {
        let us = ts.drop_last();
        let t = ts.last();
        let c = recuento(us);
        let r = recuento(ts);
        ley_cada_cuenta(us);
        let i = lema_lugar(c, t);
        lema_lugar_anotado(c, t, i);
        assert(i < c.len() ==> c[i].1 == apariciones(us, t));
        if i == c.len() && apariciones(us, t) > 0 {
            let k = choose|k: int| 0 <= k < c.len() && (#[trigger] c[k]).0 == t;
            assert(c[k].0 != t);
        }
        assert forall|k: int| 0 <= k < r.len() implies (#[trigger] r[k]).1 == apariciones(ts, r[k].0) by {
            if k != i {
                assert(r[k] == c[k]);
                assert(c[k].1 == apariciones(us, c[k].0));
                if k < i {
                    assert(c[k].0 != t);
                } else {
                    assert(c[i].0 != c[k].0);
                }
            }
        }
        assert forall|a: int, b: int| 0 <= a < b < r.len() implies (#[trigger] r[a]).0 != (
        #[trigger] r[b]).0 by {
            if a != i {
                assert(r[a] == c[a]);
            }
            if b != i {
                assert(r[b] == c[b]);
            }
            if a < c.len() && b < c.len() {
                assert(c[a].0 != c[b].0);
            } else if a < i {
                assert(c[a].0 != t);
            }
        }
        assert forall|u: Seq<char>| #[trigger] apariciones(ts, u) > 0 implies exists|k: int|
            0 <= k < r.len() && (#[trigger] r[k]).0 == u by {
            if u == t {
                assert(r[i].0 == t);
            } else {
                assert(apariciones(us, u) > 0);
                let k = choose|k: int| 0 <= k < c.len() && (#[trigger] c[k]).0 == u;
                assert(k != i);
                assert(r[k] == c[k]);
            }
        }
    }
}

proof fn lema_lugar_anotado(c: Seq<(Seq<char>, nat)>, t: Seq<char>, i: int)
    requires
        0 <= i <= c.len(),
        forall|k: int| 0 <= k < i ==> (#[trigger] c[k]).0 != t,
        i < c.len() ==> c[i].0 == t,
    ensures
        ({
            let r = anotado(c, t);
            &&& i < c.len() ==> r == c.update(i, (t, c[i].1 + 1))
            &&& i == c.len() ==> r == c.push((t, 1nat))
        }),
    decreases c.len(),
{
    if c.len() == 0 {
        assert(anotado(c, t) =~= c.push((t, 1nat)));
    } else if i == 0 {
        assert(anotado(c, t) =~= c.update(0, (t, c[0].1 + 1)));
    } else {
        let d = c.drop_first();
        assert forall|k: int| 0 <= k < i - 1 implies (#[trigger] d[k]).0 != t by {
            assert(d[k] == c[k + 1]);
        }
        assert(c[0].0 != t);
        lema_lugar_anotado(d, t, i - 1);
        if i < c.len() {
            assert(anotado(c, t) =~= c.update(i, (t, c[i].1 + 1)));
        } else {
            assert(anotado(c, t) =~= c.push((t, 1nat)));
        }
    }
}

/// Una nota es de credito o de debito; se busca su factura si dice cual es, y su estado es el que
/// toca: hallada, anterior a lo que se guarda o pendiente.
pub proof fn ley_estado_de_referencia(v: VentaVista, existe: bool, a: Seq<char>, b: Seq<char>)
    ensures
        dice_nota(a + "NCR"@ + b) && dice_nota(a + "NDB"@ + b),
        estado_referencia(v, existe) is Some <==> dice_nota(v.tpo_doc),
        busca_factura(v) ==> dice_nota(v.tpo_doc) && !texto::todo_blanco(v.referencia)
            && v.factura_ref_serie.len() > 0 && v.factura_ref_nro.len() > 0,
        dice_nota(v.tpo_doc) && !texto::todo_blanco(v.referencia) && v.factura_ref_serie.len() > 0
            && v.factura_ref_nro.len() > 0 ==> busca_factura(v),
        dice_nota(v.tpo_doc) && !busca_factura(v) ==> estado_referencia(v, existe) == Some(
            "NO_ENCONTRADA"@,
        ),
        busca_factura(v) ==> estado_referencia(v, true) == Some("REFERENCIA_OK"@),
        busca_factura(v) && v.fecha_orig.numero() - fecha::numero_dia(2020, 1, 1) < 60
            ==> estado_referencia(v, false) == Some("DOCUMENTO_FUERA_DE_VENTANA"@),
        busca_factura(v) && v.fecha_orig.numero() - fecha::numero_dia(2020, 1, 1) >= 60
            ==> estado_referencia(v, false) == Some("PENDIENTE_DE_ERP"@),
{
    texto::ley_contiene(a, "NCR"@, b);
    texto::ley_contiene(a, "NDB"@, b);
    let nada = Seq::<char>::empty();
    let s = v.referencia;
    let p = texto::ley_recorte_parte(s);
    let t = texto::recortado(s);
    if texto::todo_blanco(s) {
        texto::ley_recorte(s, nada, nada);
        assert(s + nada + nada =~= s);
    } else if t.len() == 0 {
        let i = choose|i: int| 0 <= i < s.len() && !texto::es_blanco(#[trigger] s[i]);
        if i < p.0.len() {
            assert(s[i] == p.0[i]);
        } else {
            assert(s[i] == p.1[i - p.0.len()]);
        }
    }
}

/// Las referencias son las de cada nota, en su orden.
pub proof fn ley_referencias(vs: Seq<VentaVista>, existen: Seq<bool>, n: nat)
    ensures
        referencias(vs, existen, 0).len() == 0,
        estado_referencia(vs[n as int], existen[n as int]) is None ==> referencias(
            vs,
            existen,
            n + 1,
        ) == referencias(vs, existen, n),
        estado_referencia(vs[n as int], existen[n as int]) matches Some(s) ==> referencias(
            vs,
            existen,
            n + 1,
        ) == referencias(vs, existen, n).push(s),
{
}

/// La fila previa de una venta: documento, articulo, importe y fecha, cada uno en su sitio.
pub proof fn ley_fila_previa(vs: Seq<VentaVista>, soles: Seq<Seq<char>>, i: int)
    requires
        0 <= i < soles.len() <= vs.len(),
    ensures
        ({
            let f = filas_previas(vs, soles)[i];
            &&& filas_previas(vs, soles).len() == soles.len()
            &&& f.len() == 6
            &&& f[0] == vs[i].tpo_doc && f[1] == vs[i].serie_doc && f[2] == vs[i].nro_doc
            &&& f[3] == vs[i].id_articulo && f[4] == soles[i]
            &&& f[5] == fecha::texto_iso(vs[i].fecha_orig)
        }),
{
}

/// La fuente de unos datos la da su extension.
pub proof fn ley_fuente(ext: Option<Seq<char>>)
    ensures
        fuente(ext) is Csv <==> ext == Some("csv"@),
        fuente(ext) is Libro <==> ext == Some("xls"@) || ext == Some("xlsx"@),
        fuente(ext) is Otra <==> ext is None || (ext != Some("csv"@) && ext != Some("xls"@) && ext
            != Some("xlsx"@)),
{
    reveal_strlit("csv");
    reveal_strlit("xls");
    reveal_strlit("xlsx");
    assert("csv"@[0] == 'c' && "xls"@[0] == 'x' && "xlsx"@.len() == 4 && "csv"@.len() == 3);
}

/// El dia y el nombre de la copia de un instante llevan sus cifras, con ceros delante.
pub proof fn ley_nombre_de_copia(i: fecha::Instante, secs: int)
    requires
        i.es(secs),
        i.anho <= 9999,
    ensures
        dia_iso(i) == fecha::texto_iso(
            fecha::Fecha { anho: i.anho as i32, mes: i.mes as u32, dia: i.dia as u32 },
        ),
        ({
            let y = texto::decimal_ancho(i.anho as nat, 4);
            let m = texto::decimal_ancho(i.mes as nat, 2);
            let d = texto::decimal_ancho(i.dia as nat, 2);
            let h = texto::decimal_ancho(i.hora as nat, 2);
            let n = texto::decimal_ancho(i.minuto as nat, 2);
            &&& texto::valor(y) == i.anho && texto::valor(m) == i.mes && texto::valor(d) == i.dia
            &&& texto::valor(h) == i.hora && texto::valor(n) == i.minuto
            &&& y.len() == 4 && m.len() == 2 && d.len() == 2 && h.len() == 2 && n.len() == 2
            &&& nombre_copia(i) == "historial_"@ + (y + m + d) + seq!['_'] + (h + n) + ".db"@
        }),
{
    reveal_strlit("_");
    assert("_"@ =~= seq!['_']);
    fecha::ley_texto_de_instante(i, secs);
    let y = texto::decimal_ancho(i.anho as nat, 4);
    let m = texto::decimal_ancho(i.mes as nat, 2);
    let d = texto::decimal_ancho(i.dia as nat, 2);
    let h = texto::decimal_ancho(i.hora as nat, 2);
    let n = texto::decimal_ancho(i.minuto as nat, 2);
    assert(nombre_copia(i) =~= "historial_"@ + (y + m + d) + seq!['_'] + (h + n) + ".db"@);
}

/// Un ano que no se entiende es el dos mil, y un mes que no se entiende, enero.
pub proof fn ley_anho_y_mes_dudosos(n: nat, s: Seq<char>)
    requires
        n <= i32::MAX,
        s.len() > 0,
        !s.contains('-'),
        !texto::es_cifra(s[0]),
        s[0] != '+',
    ensures
        anho_y_mes(s + seq!['-'] + texto::decimal(n)) == Some((2000int, n as int)),
        anho_y_mes(texto::decimal(n) + seq!['-'] + s) == Some((n as int, 1int)),
{
    let nada = Seq::<char>::empty();
    let a = texto::decimal(n);
    texto::ley_decimal(n, i32::MAX as int);
    texto::ley_decimal(n, u32::MAX as int);
    assert forall|i: int| 0 <= i < a.len() implies #[trigger] a[i] != '-' by {
        assert(texto::es_cifra(a[i]));
    }
    assert forall|i: int| 0 <= i < s.len() implies #[trigger] s[i] != '-' by {
        assert(s.contains(s[i]));
    }
    assert(texto::es_cifra(a[0]));
    lema_una_parte(a);
    lema_una_parte(s);
    texto::lema_partes_suma(nada, a, s, '-');
    texto::lema_partes_suma(nada, s, a, '-');
    assert(texto::partes(a + seq!['-'] + s, '-') =~= seq![a, s]);
    assert(texto::partes(s + seq!['-'] + a, '-') =~= seq![s, a]);
    assert(!texto::son_cifras(s));
}

/// Los limites: dos meses de ventana para una referencia y cinco intentos para borrar un archivo.
pub proof fn ley_limites()
    ensures
        DIAS_VENTANA == 60,
        INTENTOS_BORRADO == 5,
{
}

} // verus!
