//! Reglas de la base de datos local: que se reemplaza al guardar y que se da por
//! inconsistente.

use crate::fecha;
use crate::fecha::Fecha;
use crate::models;
use crate::models::Venta;
use crate::models::VentaVista;
use crate::texto;
use vstd::prelude::*;

verus! {

// ---------------------------------------------------------------------------
// Columnas
// ---------------------------------------------------------------------------

/// Las columnas que pueden faltar en una base antigua: su nombre y su definicion.
pub open spec fn columnas_nuevas() -> Seq<(Seq<char>, Seq<char>)> {
    seq![
        ("doc_cliente"@, "doc_cliente TEXT"@),
        ("precio_unitario"@, "precio_unitario REAL"@),
        ("cantidad_fae"@, "cantidad_fae REAL"@),
        ("original_sku"@, "original_sku TEXT"@),
        ("tipo_operacion"@, "tipo_operacion TEXT DEFAULT 'venta'"@),
        ("factura_ref_serie"@, "factura_ref_serie TEXT"@),
        ("factura_ref_nro"@, "factura_ref_nro TEXT"@),
        ("folio_unico"@, "folio_unico TEXT"@),
    ]
}

fn columna_nueva(i: usize) -> (r: (&'static str, &'static str))
    requires
        i < 8,
    ensures
        (r.0@, r.1@) == columnas_nuevas()[i as int],
{
    if i == 0 {
        ("doc_cliente", "doc_cliente TEXT")
    } else if i == 1 {
        ("precio_unitario", "precio_unitario REAL")
    } else if i == 2 {
        ("cantidad_fae", "cantidad_fae REAL")
    } else if i == 3 {
        ("original_sku", "original_sku TEXT")
    } else if i == 4 {
        ("tipo_operacion", "tipo_operacion TEXT DEFAULT 'venta'")
    } else if i == 5 {
        ("factura_ref_serie", "factura_ref_serie TEXT")
    } else if i == 6 {
        ("factura_ref_nro", "factura_ref_nro TEXT")
    } else {
        ("folio_unico", "folio_unico TEXT")
    }
}

/// De las `n` primeras columnas nuevas, las ordenes que crean las que faltan.
pub open spec fn ordenes(presentes: Seq<Seq<char>>, n: nat) -> Seq<Seq<char>>
    decreases n,
{
    if n == 0 {
        seq![]
    } else {
        let previas = ordenes(presentes, (n - 1) as nat);
        let c = columnas_nuevas()[n - 1];
        if presentes.contains(c.0) {
            previas
        } else {
            previas.push("ALTER TABLE ventas ADD COLUMN "@ + c.1)
        }
    }
}

fn esta(v: &Vec<String>, s: &str) -> (r: bool)
    ensures
        r == texto::textos(v@).contains(s@),
{
    let ghost ts = texto::textos(v@);
    let mut i: usize = 0;
    while i < v.len()
        invariant
            0 <= i <= v@.len(),
            ts == texto::textos(v@),
            forall|k: int| 0 <= k < i ==> #[trigger] ts[k] != s@,
        decreases v@.len() - i,
    {
        assert(ts[i as int] == v@[i as int]@);
        if texto::iguales(v[i].as_str(), s) {
            return true;
        }
        i = i + 1;
    }
    false
}

/// Las ordenes que ponen al dia una tabla con las columnas `presentes`.
pub fn migraciones(presentes: &Vec<String>) -> (r: Vec<String>)
    ensures
        texto::textos(r@) == ordenes(texto::textos(presentes@), 8),
{
    let ghost ps = texto::textos(presentes@);
    let mut r: Vec<String> = Vec::new();
    let mut i: usize = 0;
    assert(texto::textos(r@) =~= Seq::<Seq<char>>::empty());
    while i < 8
        invariant
            0 <= i <= 8,
            ps == texto::textos(presentes@),
            texto::textos(r@) == ordenes(ps, i as nat),
        decreases 8 - i,
    {
        let (nombre, def) = columna_nueva(i);
        let ghost antes = texto::textos(r@);
        if !esta(presentes, nombre) {
            let orden = texto::mas("ALTER TABLE ventas ADD COLUMN ".to_owned(), def);
            let ghost v = orden@;
            r.push(orden);
            assert(texto::textos(r@) =~= antes.push(v));
        }
        i = i + 1;
    }
    r
}

// ---------------------------------------------------------------------------
// Reemplazo
// ---------------------------------------------------------------------------

/// Lo que se borra antes de guardar unas ventas.
pub enum Reemplazo {
    Nada,
    /// Los dias entre dos fechas, las dos incluidas.
    Dias(Fecha, Fecha),
    /// Un mes.
    Mes(String),
}

pub open spec fn guiones(s: Seq<char>) -> int
    decreases s.len(),
{
    if s.len() == 0 {
        0
    } else {
        guiones(s.drop_last()) + (if s.last() == '-' {
            1int
        } else {
            0
        })
    }
}

/// La etiqueta es de un dia: diez bytes y dos guiones.
pub open spec fn de_un_dia(mes_ref: Seq<char>) -> bool {
    texto::bytes_de(mes_ref) == 10 && guiones(mes_ref) == 2
}

fn contar_guiones(s: &str) -> (r: usize)
    ensures
        r == guiones(s@),
{
    let v = texto::caracteres(s);
    let mut n: usize = 0;
    let mut i: usize = 0;
    assert(v@.take(0) =~= Seq::<char>::empty());
    while i < v.len()
        invariant
            0 <= i <= v@.len(),
            n == guiones(v@.take(i as int)),
            n <= i,
        decreases v@.len() - i,
    {
        assert(v@.take(i + 1).drop_last() =~= v@.take(i as int));
        if v[i] == '-' {
            n = n + 1;
        }
        i = i + 1;
    }
    assert(v@.take(i as int) =~= v@);
    n
}

/// Las fechas de todas las ventas son del calendario.
pub open spec fn con_fecha(vs: Seq<VentaVista>) -> bool {
    forall|i: int| 0 <= i < vs.len() ==> (#[trigger] vs[i]).fecha_orig.valida()
}

/// `f` es la fecha de alguna venta.
pub open spec fn fecha_de_alguna(vs: Seq<VentaVista>, f: Fecha) -> bool {
    exists|i: int| 0 <= i < vs.len() && (#[trigger] vs[i]).fecha_orig == f
}

/// `r` es lo que se borra antes de guardar `vs`: en una captura diaria, todos los dias
/// entre la primera y la ultima fecha; si no, el mes.
pub open spec fn es_reemplazo(vs: Seq<VentaVista>, r: Reemplazo) -> bool {
    if vs.len() == 0 {
        r is Nada
    } else if de_un_dia(vs[0].mes_ref) {
        r matches Reemplazo::Dias(a, b) && fecha_de_alguna(vs, a) && fecha_de_alguna(vs, b)
            && forall|i: int|
            0 <= i < vs.len() ==> a.numero() <= (#[trigger] vs[i]).fecha_orig.numero()
                <= b.numero()
    } else {
        r matches Reemplazo::Mes(m) && m@ == vs[0].mes_ref
    }
}

/// Los dias que se borran son del calendario.
pub open spec fn con_dias_validos(r: Reemplazo) -> bool {
    r matches Reemplazo::Dias(a, b) ==> a.valida() && b.valida()
}

/// Lo que hay que borrar antes de guardar `ventas`.
pub fn reemplazo(ventas: &Vec<Venta>) -> (r: Reemplazo)
    requires
        con_fecha(models::vistas(ventas@)),
    ensures
        es_reemplazo(models::vistas(ventas@), r),
        con_dias_validos(r),
{
    let ghost vs = models::vistas(ventas@);
    if ventas.len() == 0 {
        return Reemplazo::Nada;
    }
    assert(vs[0] == ventas@[0]@);
    let mes_ref = ventas[0].mes_ref.as_str();
    if texto::largo_bytes(mes_ref) != 10 || contar_guiones(mes_ref) != 2 {
        return Reemplazo::Mes(ventas[0].mes_ref.clone());
    }
    let mut a = ventas[0].fecha_orig;
    let mut b = ventas[0].fecha_orig;
    let mut i: usize = 1;
    while i < ventas.len()
        invariant
            1 <= i <= ventas@.len(),
            vs == models::vistas(ventas@),
            con_fecha(vs),
            a.valida(),
            b.valida(),
            fecha_de_alguna(vs, a),
            fecha_de_alguna(vs, b),
            forall|k: int|
                0 <= k < i ==> a.numero() <= (#[trigger] vs[k]).fecha_orig.numero() <= b.numero(),
        decreases ventas@.len() - i,
    {
        let f = ventas[i].fecha_orig;
        assert(vs[i as int].fecha_orig == f);
        if fecha::anterior(f, a) {
            a = f;
        }
        if fecha::anterior(b, f) {
            b = f;
        }
        i = i + 1;
    }
    Reemplazo::Dias(a, b)
}

/// La venta esta entre lo que se borra.
pub open spec fn afectada(v: VentaVista, r: Reemplazo) -> bool {
    match r {
        Reemplazo::Nada => false,
        Reemplazo::Dias(a, b) => a.numero() <= v.fecha_orig.numero() <= b.numero(),
        Reemplazo::Mes(m) => v.mes_ref == m@,
    }
}

/// Lo que queda en la base tras guardar unas ventas: lo que no se borra y, detras,
/// las ventas.
pub open spec fn guardado(base: Seq<VentaVista>, vs: Seq<VentaVista>, r: Reemplazo) -> Seq<
    VentaVista,
> {
    base.filter(|v: VentaVista| !afectada(v, r)) + vs
}

/// Lo que se manda a la base para guardar unas ventas.
pub enum Orden {
    Borrar(Reemplazo),
    Insertar(Venta),
}

pub enum OrdenVista {
    Borrar(Reemplazo),
    Insertar(VentaVista),
}

impl View for Orden {
    type V = OrdenVista;

    open spec fn view(&self) -> OrdenVista {
        match self {
            Orden::Borrar(r) => OrdenVista::Borrar(*r),
            Orden::Insertar(v) => OrdenVista::Insertar(v@),
        }
    }
}

pub open spec fn vistas_ordenes(os: Seq<Orden>) -> Seq<OrdenVista> {
    os.map_values(|o: Orden| o@)
}

/// La base tras unas ordenes, en su orden.
pub open spec fn ejecutadas(base: Seq<VentaVista>, os: Seq<OrdenVista>) -> Seq<VentaVista>
    decreases os.len(),
{
    if os.len() == 0 {
        base
    } else {
        let previa = ejecutadas(base, os.drop_last());
        match os.last() {
            OrdenVista::Borrar(r) => previa.filter(|v: VentaVista| !afectada(v, r)),
            OrdenVista::Insertar(v) => previa.push(v),
        }
    }
}

/// Borrar lo que se reemplaza y, detras, insertar las ventas una a una.
pub open spec fn plan_guardado(vs: Seq<VentaVista>, r: Reemplazo) -> Seq<OrdenVista> {
    seq![OrdenVista::Borrar(r)] + vs.map_values(|v: VentaVista| OrdenVista::Insertar(v))
}

proof fn lema_ordenes(base: Seq<VentaVista>, vs: Seq<VentaVista>, r: Reemplazo)
    ensures
        ejecutadas(base, plan_guardado(vs, r)) == guardado(base, vs, r),
    decreases vs.len(),
{
    let os = plan_guardado(vs, r);
    if vs.len() == 0 {
        assert(os.drop_last() =~= Seq::<OrdenVista>::empty());
        assert(os.last() == OrdenVista::Borrar(r));
        assert(ejecutadas(base, os.drop_last()) == base);
        assert(guardado(base, vs, r) =~= base.filter(|v: VentaVista| !afectada(v, r)));
    } else {
        lema_ordenes(base, vs.drop_last(), r);
        assert(os.drop_last() =~= plan_guardado(vs.drop_last(), r));
        assert(os.last() == OrdenVista::Insertar(vs.last()));
        assert(guardado(base, vs, r) =~= guardado(base, vs.drop_last(), r).push(vs.last()));
    }
}

/// Las ordenes con que se guardan unas ventas en lugar de las que hubiera de los mismos
/// dias o del mismo mes. Sea lo que sea lo que hay en la base, tras ellas queda lo guardado.
pub fn ordenes_guardado(ventas: Vec<Venta>) -> (os: Vec<Orden>)
    requires
        con_fecha(models::vistas(ventas@)),
    ensures
        exists|r: Reemplazo| #[trigger]
            es_reemplazo(models::vistas(ventas@), r) && con_dias_validos(r) && vistas_ordenes(os@)
                == plan_guardado(
                models::vistas(ventas@),
                r,
            ) && forall|base: Seq<VentaVista>| #[trigger]
                ejecutadas(base, vistas_ordenes(os@)) == guardado(
                    base,
                    models::vistas(ventas@),
                    r,
                ),
{
    let ghost vs = models::vistas(ventas@);
    let ghost todas = ventas@;
    let r = reemplazo(&ventas);
    let ghost rr = r;
    let mut os: Vec<Orden> = Vec::new();
    os.push(Orden::Borrar(r));
    assert(vs.take(0) =~= Seq::<VentaVista>::empty());
    assert(vistas_ordenes(os@) =~= plan_guardado(vs.take(0), rr));
    for v in it: ventas
        invariant
            it.seq() == todas,
            vs == models::vistas(todas),
            vistas_ordenes(os@) == plan_guardado(vs.take(it.index()), rr),
    {
        let ghost k = it.index();
        let ghost antes = os@;
        assert(vs[k] == v@);
        os.push(Orden::Insertar(v));
        assert(vs.take(k + 1) =~= vs.take(k).push(v@));
        assert(vistas_ordenes(os@) =~= vistas_ordenes(antes).push(OrdenVista::Insertar(v@)));
        assert(vistas_ordenes(os@) =~= plan_guardado(vs.take(k + 1), rr));
    }
    proof {
        assert(vs.take(vs.len() as int) =~= vs);
        assert forall|base: Seq<VentaVista>| #[trigger]
            ejecutadas(base, vistas_ordenes(os@)) == guardado(base, vs, rr) by {
            lema_ordenes(base, vs, rr);
        }
    }
    os
}

/// Las ventas que insertan unas ordenes.
pub open spec fn inserciones(os: Seq<OrdenVista>) -> int
    decreases os.len(),
{
    if os.len() == 0 {
        0
    } else {
        inserciones(os.drop_last()) + (if os.last() is Insertar {
            1int
        } else {
            0
        })
    }
}

pub fn guardadas(os: &Vec<Orden>) -> (n: usize)
    ensures
        n == inserciones(vistas_ordenes(os@)),
{
    let ghost vs = vistas_ordenes(os@);
    let mut n: usize = 0;
    let mut i: usize = 0;
    assert(vs.take(0) =~= Seq::<OrdenVista>::empty());
    while i < os.len()
        invariant
            0 <= i <= os@.len(),
            vs == vistas_ordenes(os@),
            n == inserciones(vs.take(i as int)),
            n <= i,
        decreases os@.len() - i,
    {
        assert(vs.take(i + 1).drop_last() =~= vs.take(i as int));
        assert(vs[i as int] == os@[i as int]@);
        match &os[i] {
            Orden::Insertar(_) => {
                n = n + 1;
            },
            Orden::Borrar(_) => {},
        }
        i = i + 1;
    }
    assert(vs.take(i as int) =~= vs);
    n
}

/// La sentencia con que se borra y los valores que lleva; ninguna si no se borra nada.
pub open spec fn sentencia(r: Reemplazo) -> Option<(Seq<char>, Seq<Seq<char>>)> {
    match r {
        Reemplazo::Nada => None,
        Reemplazo::Dias(a, b) => Some(
            (
                "DELETE FROM ventas WHERE fecha_orig BETWEEN ? AND ?"@,
                seq![fecha::texto_iso(a), fecha::texto_iso(b)],
            ),
        ),
        Reemplazo::Mes(m) => Some(("DELETE FROM ventas WHERE mes_ref = ?"@, seq![m@])),
    }
}

pub fn borrado(r: &Reemplazo) -> (o: Option<(String, Vec<String>)>)
    requires
        con_dias_validos(*r),
    ensures
        match o {
            Some(p) => sentencia(*r) == Some((p.0@, texto::textos(p.1@))),
            None => sentencia(*r) is None,
        },
{
    match r {
        Reemplazo::Nada => None,
        Reemplazo::Dias(a, b) => {
            let v: Vec<String> = vec![fecha::fecha_iso(*a), fecha::fecha_iso(*b)];
            assert(texto::textos(v@) =~= seq![fecha::texto_iso(*a), fecha::texto_iso(*b)]);
            Some(("DELETE FROM ventas WHERE fecha_orig BETWEEN ? AND ?".to_owned(), v))
        },
        Reemplazo::Mes(m) => {
            let v: Vec<String> = vec![m.clone()];
            assert(texto::textos(v@) =~= seq![m@]);
            Some(("DELETE FROM ventas WHERE mes_ref = ?".to_owned(), v))
        },
    }
}

/// Guardar las ventas de un mes deja de ese mes justo esas, en su orden, y lo de los demas
/// como estaba; se insertan todas.
pub proof fn ley_guardar_mes(base: Seq<VentaVista>, vs: Seq<VentaVista>, r: Reemplazo)
    requires
        vs.len() > 0,
        !de_un_dia(vs[0].mes_ref),
        es_reemplazo(vs, r),
        forall|i: int| 0 <= i < vs.len() ==> (#[trigger] vs[i]).mes_ref == vs[0].mes_ref,
    ensures
        guardado(base, vs, r).filter(|v: VentaVista| v.mes_ref == vs[0].mes_ref) == vs,
        guardado(base, vs, r).filter(|v: VentaVista| v.mes_ref != vs[0].mes_ref) == base.filter(
            |v: VentaVista| v.mes_ref != vs[0].mes_ref,
        ),
        inserciones(plan_guardado(vs, r)) == vs.len(),
{
    let m = vs[0].mes_ref;
    let suyas = |v: VentaVista| v.mes_ref == m;
    let ajenas = |v: VentaVista| v.mes_ref != m;
    let pred = |v: VentaVista| !afectada(v, r);
    assert(pred =~= ajenas);
    let quedan = base.filter(pred);
    lema_filtro_cumple(base, pred);
    assert forall|i: int| 0 <= i < quedan.len() implies ajenas(#[trigger] quedan[i]) by {
        assert(pred(quedan[i]));
    }
    assert forall|i: int| 0 <= i < quedan.len() implies !suyas(#[trigger] quedan[i]) by {
        assert(ajenas(quedan[i]));
    }
    lema_filtro_suma(quedan, vs, suyas);
    lema_filtro_suma(quedan, vs, ajenas);
    lema_filtro_nada(quedan, suyas);
    lema_filtro_todo(vs, suyas);
    lema_filtro_todo(quedan, ajenas);
    lema_filtro_nada(vs, ajenas);
    assert(Seq::<VentaVista>::empty() + vs =~= vs);
    assert(quedan + Seq::<VentaVista>::empty() =~= quedan);
    lema_inserciones(vs, r);
}

proof fn lema_inserciones(vs: Seq<VentaVista>, r: Reemplazo)
    ensures
        inserciones(plan_guardado(vs, r)) == vs.len(),
    decreases vs.len(),
{
    let os = plan_guardado(vs, r);
    if vs.len() == 0 {
        assert(os.drop_last() =~= Seq::<OrdenVista>::empty());
        assert(os.last() == OrdenVista::Borrar(r));
        assert(inserciones(os.drop_last()) == 0);
    } else {
        lema_inserciones(vs.drop_last(), r);
        assert(os.drop_last() =~= plan_guardado(vs.drop_last(), r));
        assert(os.last() == OrdenVista::Insertar(vs.last()));
    }
}

/// Guardar dos veces las ventas de un archivo, que llevan todas la misma etiqueta, deja
/// la base como guardarlas una: la segunda vez borra justo lo que guardo la primera.
pub proof fn ley_guardar_dos_veces(base: Seq<VentaVista>, vs: Seq<VentaVista>, r: Reemplazo)
    requires
        es_reemplazo(vs, r),
        forall|i: int| 0 <= i < vs.len() ==> (#[trigger] vs[i]).mes_ref == vs[0].mes_ref,
    ensures
        guardado(guardado(base, vs, r), vs, r) == guardado(base, vs, r),
{
    assert forall|i: int| 0 <= i < vs.len() implies afectada(#[trigger] vs[i], r) by {
        assert(vs[i].mes_ref == vs[0].mes_ref);
    }
    let pred = |v: VentaVista| !afectada(v, r);
    let quedan = base.filter(pred);
    lema_filtro_suma(quedan, vs, pred);
    lema_filtro_cumple(base, pred);
    lema_filtro_todo(quedan, pred);
    lema_filtro_nada(vs, pred);
    assert(quedan + Seq::<VentaVista>::empty() =~= quedan);
}

pub(crate) proof fn lema_filtro_suma(a: Seq<VentaVista>, b: Seq<VentaVista>, pred: spec_fn(VentaVista) -> bool)
    ensures
        (a + b).filter(pred) == a.filter(pred) + b.filter(pred),
    decreases b.len(),
{
    reveal(Seq::filter);
    if b.len() == 0 {
        assert(a + b =~= a);
        assert(a.filter(pred) + b.filter(pred) =~= a.filter(pred));
    } else {
        assert((a + b).drop_last() =~= a + b.drop_last());
        lema_filtro_suma(a, b.drop_last(), pred);
        assert((a + b).last() == b.last());
        let f = b.drop_last().filter(pred);
        assert(a.filter(pred) + f.push(b.last()) =~= (a.filter(pred) + f).push(b.last()));
    }
}

pub(crate) proof fn lema_filtro_cumple(s: Seq<VentaVista>, pred: spec_fn(VentaVista) -> bool)
    ensures
        forall|i: int| 0 <= i < s.filter(pred).len() ==> pred(#[trigger] s.filter(pred)[i]),
    decreases s.len(),
{
    reveal(Seq::filter);
    if s.len() > 0 {
        lema_filtro_cumple(s.drop_last(), pred);
        let previas = s.drop_last().filter(pred);
        let todas = s.filter(pred);
        assert forall|i: int| 0 <= i < todas.len() implies pred(#[trigger] todas[i]) by {
            if i < previas.len() {
                assert(todas[i] == previas[i]);
            }
        }
    }
}

pub(crate) proof fn lema_filtro_todo(s: Seq<VentaVista>, pred: spec_fn(VentaVista) -> bool)
    requires
        forall|i: int| 0 <= i < s.len() ==> pred(#[trigger] s[i]),
    ensures
        s.filter(pred) == s,
    decreases s.len(),
{
    reveal(Seq::filter);
    if s.len() > 0 {
        assert forall|i: int| 0 <= i < s.drop_last().len() implies pred(
            #[trigger] s.drop_last()[i],
        ) by {
            assert(s.drop_last()[i] == s[i]);
        }
        lema_filtro_todo(s.drop_last(), pred);
        assert(pred(s[s.len() - 1]));
        assert(s.drop_last().push(s.last()) =~= s);
    }
}

pub(crate) proof fn lema_filtro_nada(s: Seq<VentaVista>, pred: spec_fn(VentaVista) -> bool)
    requires
        forall|i: int| 0 <= i < s.len() ==> !pred(#[trigger] s[i]),
    ensures
        s.filter(pred) == Seq::<VentaVista>::empty(),
    decreases s.len(),
{
    reveal(Seq::filter);
    if s.len() > 0 {
        assert forall|i: int| 0 <= i < s.drop_last().len() implies !pred(
            #[trigger] s.drop_last()[i],
        ) by {
            assert(s.drop_last()[i] == s[i]);
        }
        lema_filtro_nada(s.drop_last(), pred);
        assert(!pred(s[s.len() - 1]));
    }
}

// ---------------------------------------------------------------------------
// Integridad
// ---------------------------------------------------------------------------

/// Lo que se cuenta para ver si la base esta bien.
pub struct Cuentas {
    /// Pares de folio y articulo repetidos.
    pub repetidos: i64,
    /// Registros sin folio.
    pub sin_folio: i64,
    pub meses: i64,
    pub checksums: i64,
}

/// Meses que van de enero de 2018 al mes `mes` del ano `anho`, los dos contados.
pub open spec fn meses_esperados(anho: int, mes: int) -> int {
    (anho - 2018) * 12 + mes
}

pub open spec fn incidencias(c: Cuentas, anho: int, mes: int) -> Seq<Seq<char>> {
    let s: Seq<Seq<char>> = seq![];
    let s = if c.repetidos > 0 {
        s.push(
            "\u{26a0}\u{fe0f}  Encontrados "@ + texto::decimal_signo(c.repetidos as int)
                + " pares (folio+SKU) duplicados"@,
        )
    } else {
        s
    };
    let s = if c.sin_folio > 0 {
        s.push(
            "\u{26a0}\u{fe0f}  "@ + texto::decimal_signo(c.sin_folio as int)
                + " registros sin folio_unico v\u{e1}lido"@,
        )
    } else {
        s
    };
    let s = if c.meses < meses_esperados(anho, mes) {
        s.push(
            "\u{2139}\u{fe0f}  "@ + texto::decimal_signo(c.meses as int)
                + " meses con datos (esperado ~"@ + texto::decimal_signo(meses_esperados(anho, mes))
                + " desde 2018)"@,
        )
    } else {
        s
    };
    let s = if c.checksums == 0 {
        s.push(
            "\u{2139}\u{fe0f}  No hay checksums calculados. Ejecuta 'calcular_checksums' para establecer baseline"@,
        )
    } else {
        s
    };
    if s.len() == 0 {
        s.push("\u{2705} Base de datos intacta. No se encontraron inconsistencias."@)
    } else {
        s
    }
}

fn con_linea(v: Vec<String>, l: String) -> (r: Vec<String>)
    ensures
        texto::textos(r@) == texto::textos(v@).push(l@),
{
    let mut r = v;
    let ghost antes = texto::textos(r@);
    let ghost x = l@;
    r.push(l);
    assert(texto::textos(r@) =~= antes.push(x));
    r
}

/// Lo que no cuadra en la base, o que todo esta bien, en el mes `mes` del ano `anho`.
pub fn verify_integrity(c: &Cuentas, anho: i32, mes: u32) -> (r: Vec<String>)
    ensures
        texto::textos(r@) == incidencias(*c, anho as int, mes as int),
        r@.len() > 0,
{
    let mut v: Vec<String> = Vec::new();
    assert(texto::textos(v@) =~= Seq::<Seq<char>>::empty());
    if c.repetidos > 0 {
        let l = texto::mas(
            "\u{26a0}\u{fe0f}  Encontrados ".to_owned(),
            texto::texto_i64(c.repetidos).as_str(),
        );
        v = con_linea(v, texto::mas(l, " pares (folio+SKU) duplicados"));
    }
    if c.sin_folio > 0 {
        let l = texto::mas(
            "\u{26a0}\u{fe0f}  ".to_owned(),
            texto::texto_i64(c.sin_folio).as_str(),
        );
        v = con_linea(v, texto::mas(l, " registros sin folio_unico v\u{e1}lido"));
    }
    let esperados: i64 = (anho as i64 - 2018) * 12 + mes as i64;
    if c.meses < esperados {
        let l = texto::mas("\u{2139}\u{fe0f}  ".to_owned(), texto::texto_i64(c.meses).as_str());
        let l = texto::mas(l, " meses con datos (esperado ~");
        let l = texto::mas(l, texto::texto_i64(esperados).as_str());
        v = con_linea(v, texto::mas(l, " desde 2018)"));
    }
    if c.checksums == 0 {
        v = con_linea(
            v,
            "\u{2139}\u{fe0f}  No hay checksums calculados. Ejecuta 'calcular_checksums' para establecer baseline".to_owned(),
        );
    }
    assert(texto::textos(v@).len() == v@.len());
    if v.len() == 0 {
        v = con_linea(
            v,
            "\u{2705} Base de datos intacta. No se encontraron inconsistencias.".to_owned(),
        );
    }
    assert(texto::textos(v@).len() == v@.len());
    v
}

/// Una incidencia que se avisa al sincronizar sin nadie delante.
pub open spec fn grave(linea: Seq<char>) -> bool {
    texto::contiene(linea, "\u{26a0}"@) || texto::contiene(linea, "ERROR"@)
}

pub fn es_grave(linea: &str) -> (r: bool)
    ensures
        r == grave(linea@),
{
    proof {
        reveal_strlit("\u{26a0}");
        reveal_strlit("ERROR");
    }
    texto::contiene_texto(linea, "\u{26a0}") || texto::contiene_texto(linea, "ERROR")
}

// ---------------------------------------------------------------------------
// Leyes
// ---------------------------------------------------------------------------

/// Guardar unas ventas diarias cambia solo los dias que van de su primera fecha a la ultima: de
/// esos quedan justo las ventas nuevas, y lo de los demas dias queda como estaba.
pub proof fn ley_guardar_dias(
    base: Seq<VentaVista>,
    vs: Seq<VentaVista>,
    a: Fecha,
    b: Fecha,
)
    requires
        vs.len() > 0,
        de_un_dia(vs[0].mes_ref),
        es_reemplazo(vs, Reemplazo::Dias(a, b)),
    ensures
        ({
            let r = Reemplazo::Dias(a, b);
            let dentro = |v: VentaVista| a.numero() <= v.fecha_orig.numero() <= b.numero();
            let fuera = |v: VentaVista| !(a.numero() <= v.fecha_orig.numero() <= b.numero());
            &&& guardado(base, vs, r).filter(dentro) == vs
            &&& guardado(base, vs, r).filter(fuera) == base.filter(fuera)
            &&& guardado(base, vs, r).len() == base.filter(fuera).len() + vs.len()
        }),
        exists|i: int| 0 <= i < vs.len() && (#[trigger] vs[i]).fecha_orig == a,
        exists|i: int| 0 <= i < vs.len() && (#[trigger] vs[i]).fecha_orig == b,
{
    let r = Reemplazo::Dias(a, b);
    let dentro = |v: VentaVista| a.numero() <= v.fecha_orig.numero() <= b.numero();
    let fuera = |v: VentaVista| !(a.numero() <= v.fecha_orig.numero() <= b.numero());
    let pred = |v: VentaVista| !afectada(v, r);
    assert(pred =~= fuera);
    let quedan = base.filter(fuera);
    lema_filtro_cumple(base, fuera);
    assert forall|i: int| 0 <= i < quedan.len() implies !dentro(#[trigger] quedan[i]) by {
        assert(fuera(quedan[i]));
    }
    lema_filtro_suma(quedan, vs, dentro);
    lema_filtro_suma(quedan, vs, fuera);
    lema_filtro_nada(quedan, dentro);
    lema_filtro_todo(vs, dentro);
    lema_filtro_todo(quedan, fuera);
    lema_filtro_nada(vs, fuera);
    assert(Seq::<VentaVista>::empty() + vs =~= vs);
    assert(quedan + Seq::<VentaVista>::empty() =~= quedan);
}

/// Sin ventas no se borra ni se guarda nada; con ventas, lo que se borra es de los mismos dias
/// o del mismo mes que ellas: toda venta nueva esta entre lo que se reemplaza.
pub proof fn ley_reemplazo(base: Seq<VentaVista>, vs: Seq<VentaVista>, r: Reemplazo)
    requires
        es_reemplazo(vs, r),
    ensures
        vs.len() == 0 ==> guardado(base, vs, r) == base,
        vs.len() > 0 && r is Mes ==> r->Mes_0@ == vs[0].mes_ref && !de_un_dia(vs[0].mes_ref),
        r matches Reemplazo::Dias(a, b) ==> de_un_dia(vs[0].mes_ref) && forall|i: int|
            0 <= i < vs.len() ==> a.numero() <= (#[trigger] vs[i]).fecha_orig.numero()
                <= b.numero(),
        r matches Reemplazo::Dias(a, b) ==> (exists|i: int|
            0 <= i < vs.len() && (#[trigger] vs[i]).fecha_orig == a) && exists|i: int|
            0 <= i < vs.len() && (#[trigger] vs[i]).fecha_orig == b,
        vs.len() > 0 ==> !(r is Nada),
        guardado(base, vs, r).len() >= vs.len(),
        guardado(base, vs, r).skip(guardado(base, vs, r).len() - vs.len()) == vs,
{
    let g = guardado(base, vs, r);
    assert(g.skip(g.len() - vs.len()) =~= vs);
    if vs.len() == 0 {
        let pred = |v: VentaVista| !afectada(v, r);
        lema_filtro_todo(base, pred);
        assert(base + vs =~= base);
    }
}

/// Es de un dia una etiqueta `aaaa-mm-dd` y no una `aaaa-mm`.
pub proof fn ley_de_un_dia(y: Seq<char>, m: Seq<char>, d: Seq<char>)
    requires
        y.len() == 4,
        m.len() == 2,
        d.len() == 2,
        texto::son_cifras(y),
        texto::son_cifras(m),
        texto::son_cifras(d),
    ensures
        de_un_dia(y + seq!['-'] + m + seq!['-'] + d),
        !de_un_dia(y + seq!['-'] + m),
{
    let s = y + seq!['-'] + m;
    let t = s + seq!['-'] + d;
    lema_cifras_ascii(y);
    lema_cifras_ascii(m);
    lema_cifras_ascii(d);
    assert(texto::es_ascii(s)) by {
        assert forall|i: int| 0 <= i < s.len() implies (#[trigger] s[i] as u32) < 0x80 by {
            if i < 4 {
                assert(s[i] == y[i]);
            } else if i > 4 {
                assert(s[i] == m[i - 5]);
            }
        }
    }
    assert(texto::es_ascii(t)) by {
        assert forall|i: int| 0 <= i < t.len() implies (#[trigger] t[i] as u32) < 0x80 by {
            if i < 7 {
                assert(t[i] == s[i]);
            } else if i > 7 {
                assert(t[i] == d[i - 8]);
            }
        }
    }
    texto::ley_bytes(s, '0');
    texto::ley_bytes(t, '0');
    lema_guiones_suma(s, seq!['-'] + d);
    lema_guiones_suma(seq!['-'], d);
    lema_guiones_suma(y, seq!['-'] + m);
    lema_guiones_suma(seq!['-'], m);
    lema_sin_guiones(y);
    lema_sin_guiones(m);
    lema_sin_guiones(d);
    assert(seq!['-'].drop_last() =~= Seq::<char>::empty());
    assert(guiones(seq!['-']) == guiones(seq!['-'].drop_last()) + 1);
    assert(y + (seq!['-'] + m) =~= s);
    assert(s + (seq!['-'] + d) =~= t);
}

proof fn lema_cifras_ascii(s: Seq<char>)
    requires
        texto::son_cifras(s),
    ensures
        texto::es_ascii(s),
{
    assert forall|i: int| 0 <= i < s.len() implies (#[trigger] s[i] as u32) < 0x80 by {
        assert(texto::es_cifra(s[i]));
    }
}

proof fn lema_sin_guiones(s: Seq<char>)
    requires
        texto::son_cifras(s),
    ensures
        guiones(s) == 0,
    decreases s.len(),
{
    if s.len() > 0 {
        let t = s.drop_last();
        assert forall|i: int| 0 <= i < t.len() implies texto::es_cifra(#[trigger] t[i]) by {
            assert(t[i] == s[i]);
        }
        assert(texto::es_cifra(s[s.len() - 1]));
        lema_sin_guiones(t);
    }
}

proof fn lema_guiones_suma(a: Seq<char>, b: Seq<char>)
    ensures
        guiones(a + b) == guiones(a) + guiones(b),
    decreases b.len(),
{
    if b.len() == 0 {
        assert(a + b =~= a);
    } else {
        assert((a + b).drop_last() =~= a + b.drop_last());
        assert((a + b).last() == b.last());
        lema_guiones_suma(a, b.drop_last());
    }
}

/// Se anaden justo las columnas nuevas que faltan, cada una con su definicion, que empieza por
/// su nombre; si no falta ninguna no se toca nada.
pub proof fn ley_migraciones(presentes: Seq<Seq<char>>, n: nat)
    requires
        0 < n <= 8,
    ensures
        ({
            let c = columnas_nuevas()[n - 1];
            let previas = ordenes(presentes, (n - 1) as nat);
            ordenes(presentes, n) == (if presentes.contains(c.0) {
                previas
            } else {
                previas.push("ALTER TABLE ventas ADD COLUMN "@ + c.1)
            })
        }),
        ordenes(presentes, 0).len() == 0,
        texto::empieza(columnas_nuevas()[n - 1].1, columnas_nuevas()[n - 1].0),
        columnas_nuevas().len() == 8,
{
    reveal_strlit("doc_cliente");
    reveal_strlit("doc_cliente TEXT");
    reveal_strlit("precio_unitario");
    reveal_strlit("precio_unitario REAL");
    reveal_strlit("cantidad_fae");
    reveal_strlit("cantidad_fae REAL");
    reveal_strlit("original_sku");
    reveal_strlit("original_sku TEXT");
    reveal_strlit("tipo_operacion");
    reveal_strlit("tipo_operacion TEXT DEFAULT 'venta'");
    reveal_strlit("factura_ref_serie");
    reveal_strlit("factura_ref_serie TEXT");
    reveal_strlit("factura_ref_nro");
    reveal_strlit("factura_ref_nro TEXT");
    reveal_strlit("folio_unico");
    reveal_strlit("folio_unico TEXT");
    let c = columnas_nuevas()[n - 1];
    assert(c.1.subrange(0, c.0.len() as int) =~= c.0);
}

/// Lo que se borra se pide por las fechas o por el mes que se reemplaza, en ese orden; si no se
/// reemplaza nada no se borra nada.
pub proof fn ley_sentencia(r: Reemplazo)
    ensures
        sentencia(r) is None <==> r is Nada,
        (sentencia(r) matches Some(p) ==> {
            let (orden, valores) = p;
            &&& texto::empieza(orden, "DELETE FROM ventas "@)
            &&& (r matches Reemplazo::Dias(a, b) ==> valores.len() == 2 && valores[0]
                == fecha::texto_iso(a) && valores[1] == fecha::texto_iso(b) && texto::termina(
                orden,
                "WHERE fecha_orig BETWEEN ? AND ?"@,
            ))
            &&& (r matches Reemplazo::Mes(m) ==> valores.len() == 1 && valores[0] == m@
                && texto::termina(orden, "WHERE mes_ref = ?"@))
        }),
{
    reveal_strlit("DELETE FROM ventas WHERE fecha_orig BETWEEN ? AND ?");
    reveal_strlit("DELETE FROM ventas WHERE mes_ref = ?");
    reveal_strlit("WHERE fecha_orig BETWEEN ? AND ?");
    reveal_strlit("WHERE mes_ref = ?");
    reveal_strlit("DELETE FROM ventas ");
    let a = "DELETE FROM ventas WHERE fecha_orig BETWEEN ? AND ?"@;
    let b = "DELETE FROM ventas WHERE mes_ref = ?"@;
    assert(a.subrange(19, 51) =~= "WHERE fecha_orig BETWEEN ? AND ?"@);
    assert(b.subrange(19, 36) =~= "WHERE mes_ref = ?"@);
    assert(a.subrange(0, 19) =~= "DELETE FROM ventas "@);
    assert(b.subrange(0, 19) =~= "DELETE FROM ventas "@);
}

/// Los meses que se esperan crecen uno por mes y doce por ano, desde enero de 2018.
pub proof fn ley_meses_esperados(anho: int, mes: int)
    ensures
        meses_esperados(2018, 1) == 1,
        meses_esperados(anho, mes + 1) == meses_esperados(anho, mes) + 1,
        meses_esperados(anho + 1, mes) == meses_esperados(anho, mes) + 12,
{
}

/// Hay una linea por cada cosa que no cuadra, y una sola, que dice que todo esta bien, si
/// cuadra todo. Los repetidos y los que no tienen folio son graves.
pub proof fn ley_incidencias(c: Cuentas, anho: int, mes: int)
    ensures
        ({
            let ls = incidencias(c, anho, mes);
            let n = (if c.repetidos > 0 {
                1int
            } else {
                0
            }) + (if c.sin_folio > 0 {
                1int
            } else {
                0
            }) + (if c.meses < meses_esperados(anho, mes) {
                1int
            } else {
                0
            }) + (if c.checksums == 0 {
                1int
            } else {
                0
            });
            &&& ls.len() == (if n == 0 {
                1
            } else {
                n
            })
            &&& n == 0 ==> ls[0]
                == "\u{2705} Base de datos intacta. No se encontraron inconsistencias."@
            &&& c.repetidos > 0 ==> grave(ls[0]) && texto::contiene(
                ls[0],
                texto::decimal_signo(c.repetidos as int),
            )
            &&& c.sin_folio > 0 && c.repetidos <= 0 ==> grave(ls[0]) && texto::contiene(
                ls[0],
                texto::decimal_signo(c.sin_folio as int),
            )
            &&& c.sin_folio > 0 && c.repetidos > 0 ==> grave(ls[1]) && texto::contiene(
                ls[1],
                texto::decimal_signo(c.sin_folio as int),
            )
        }),
{
    reveal_strlit("\u{26a0}");
    reveal_strlit("\u{26a0}\u{fe0f}  Encontrados ");
    reveal_strlit("\u{26a0}\u{fe0f}  ");
    let a = "\u{26a0}\u{fe0f}  Encontrados "@;
    let b = "\u{26a0}\u{fe0f}  "@;
    let d = texto::decimal_signo(c.repetidos as int);
    let e = texto::decimal_signo(c.sin_folio as int);
    let x = " pares (folio+SKU) duplicados"@;
    let y = " registros sin folio_unico v\u{e1}lido"@;
    texto::ley_contiene(a, d, x);
    texto::ley_contiene(b, e, y);
    let l = a + d + x;
    let m = b + e + y;
    assert(l.subrange(0, 1) =~= "\u{26a0}"@);
    assert(texto::aparece(l, "\u{26a0}"@, 0));
    assert(m.subrange(0, 1) =~= "\u{26a0}"@);
    assert(texto::aparece(m, "\u{26a0}"@, 0));
}

/// Es grave la linea que lleva el aviso o dice `ERROR`, en cualquier parte.
pub proof fn ley_grave(a: Seq<char>, b: Seq<char>)
    ensures
        grave(a + "ERROR"@ + b),
        grave(a + "\u{26a0}"@ + b),
        grave(a) ==> texto::contiene(a, "\u{26a0}"@) || texto::contiene(a, "ERROR"@),
{
    texto::ley_contiene(a, "ERROR"@, b);
    texto::ley_contiene(a, "\u{26a0}"@, b);
}

/// Un nombre es de un dia si tiene diez caracteres y dos rayas.
pub proof fn ley_forma_de_dia(s: Seq<char>, c: char)
    requires
        texto::es_ascii(s),
    ensures
        s.len() != 10 ==> !de_un_dia(s),
        guiones(s) != 2 ==> !de_un_dia(s),
        s.len() == 10 && guiones(s) == 2 ==> de_un_dia(s),
        guiones(s.push(c)) == guiones(s) + (if c == '-' {
            1int
        } else {
            0
        }),
        guiones(seq![]) == 0,
{
    texto::ley_bytes(s, c);
    assert(s.push(c).drop_last() =~= s);
}

} // verus!
