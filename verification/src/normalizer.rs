//! Normalizacion de codigos y textos.

use crate::models;
use crate::models::Venta;
use crate::models::VentaVista;
use crate::texto;
use vstd::prelude::*;

verus! {

/// Un codigo sin blancos en los extremos ni puntos, con ceros a la izquierda hasta
/// `w` caracteres; vacio si no queda nada.
pub open spec fn con_ceros(s: Seq<char>, w: int) -> Seq<char> {
    let t = texto::reemplazado(texto::recortado(s), seq!['.'], seq![]);
    if t.len() == 0 {
        seq![]
    } else {
        texto::rellenado(t, w, '0')
    }
}

pub fn lz(s: &str, w: usize) -> (r: String)
    ensures
        r@ == con_ceros(s@, w as int),
{
    proof {
        reveal_strlit(".");
        reveal_strlit("");
        assert("."@ =~= seq!['.']);
        assert(""@ =~= Seq::<char>::empty());
    }
    let t = texto::recortar(s);
    let t = texto::reemplazar(t.as_str(), ".", "");
    if t.as_str().unicode_len() == 0 {
        return String::new();
    }
    texto::rellenar(t.as_str(), w, '0')
}

/// Un codigo normalizado esta vacio o tiene al menos los caracteres pedidos.
pub proof fn ley_ancho(s: Seq<char>, w: int)
    ensures
        con_ceros(s, w).len() == 0 || con_ceros(s, w).len() >= w,
{
}

/// Normalizar un codigo dos veces es como una, si sin los puntos no le quedan blancos en
/// los extremos.
pub proof fn ley_dos_veces(s: Seq<char>, w: int)
    requires
        ({
            let t = texto::reemplazado(texto::recortado(s), seq!['.'], seq![]);
            texto::recortado(t) == t
        }),
    ensures
        con_ceros(con_ceros(s, w), w) == con_ceros(s, w),
{
    let t = texto::reemplazado(texto::recortado(s), seq!['.'], seq![]);
    let r = con_ceros(s, w);
    texto::lema_reemplazo_quita(texto::recortado(s), '.', seq![]);
    assert forall|i: int| 0 <= i < t.len() implies #[trigger] t[i] != '.' by {
        assert(t.contains(t[i]));
    }
    if t.len() > 0 {
        lema_sin_blancos(t);
        let ceros = r.len() - t.len();
        assert forall|i: int| 0 <= i < r.len() implies #[trigger] r[i] != '.' by {
            if i >= ceros {
                assert(r[i] == t[i - ceros]);
            }
        }
        assert(r.last() == t.last());
        assert(!texto::es_blanco(r[0]));
        assert(texto::recortado(r) == r);
    }
    texto::lema_reemplazo_nulo(r, '.', seq![]);
}

/// Un texto que recortado no cambia no tiene blancos en los extremos.
proof fn lema_sin_blancos(t: Seq<char>)
    requires
        t.len() > 0,
        texto::recortado(t) == t,
    ensures
        !texto::es_blanco(t[0]),
        !texto::es_blanco(t.last()),
{
    lema_corta_izq(t);
    lema_corta_der(texto::sin_blancos_izq(t));
}

proof fn lema_corta_izq(t: Seq<char>)
    ensures
        texto::sin_blancos_izq(t).len() <= t.len(),
        t.len() > 0 && texto::es_blanco(t[0]) ==> texto::sin_blancos_izq(t).len() < t.len(),
    decreases t.len(),
{
    if t.len() > 0 && texto::es_blanco(t[0]) {
        lema_corta_izq(t.drop_first());
    }
}

proof fn lema_corta_der(t: Seq<char>)
    ensures
        texto::sin_blancos_der(t).len() <= t.len(),
        t.len() > 0 && texto::es_blanco(t.last()) ==> texto::sin_blancos_der(t).len() < t.len(),
    decreases t.len(),
{
    if t.len() > 0 && texto::es_blanco(t.last()) {
        lema_corta_der(t.drop_last());
    }
}

/// La venta con sus codigos rellenados.
pub open spec fn ids_normales(v: VentaVista) -> VentaVista {
    VentaVista {
        id_articulo: con_ceros(v.id_articulo, 6),
        id_cliente: con_ceros(v.id_cliente, 5),
        id_linea: con_ceros(v.id_linea, 4),
        id_vendedor: con_ceros(v.id_vendedor, 5),
        serie_doc: con_ceros(v.serie_doc, 3),
        ..v
    }
}

/// La venta con sus nombres sin blancos en los extremos y el tipo de documento en
/// mayusculas.
pub open spec fn textos_normales(v: VentaVista) -> VentaVista {
    VentaVista {
        nom_articulo: texto::recortado(v.nom_articulo),
        nom_cliente: texto::recortado(v.nom_cliente),
        nom_linea: texto::recortado(v.nom_linea),
        tpo_doc: texto::mayusculas(v.tpo_doc),
        ..v
    }
}

pub fn normalize_ids(ventas: &mut Vec<Venta>)
    ensures
        models::vistas(final(ventas)@) == models::vistas(old(ventas)@).map_values(
            |v: VentaVista| ids_normales(v),
        ),
{
    let ghost antes = models::vistas(ventas@);
    let n: usize = ventas.len();
    let mut i: usize = 0;
    while i < n
        invariant
            0 <= i <= n == ventas@.len() == antes.len(),
            forall|k: int| 0 <= k < i ==> (#[trigger] ventas@[k])@ == ids_normales(antes[k]),
            forall|k: int| i <= k < n ==> (#[trigger] ventas@[k])@ == antes[k],
        decreases n - i,
    {
        let id_articulo = lz(ventas[i].id_articulo.as_str(), 6);
        let id_cliente = lz(ventas[i].id_cliente.as_str(), 5);
        let id_linea = lz(ventas[i].id_linea.as_str(), 4);
        let id_vendedor = lz(ventas[i].id_vendedor.as_str(), 5);
        let serie_doc = lz(ventas[i].serie_doc.as_str(), 3);
        let v = &mut ventas[i];
        v.id_articulo = id_articulo;
        v.id_cliente = id_cliente;
        v.id_linea = id_linea;
        v.id_vendedor = id_vendedor;
        v.serie_doc = serie_doc;
        i = i + 1;
    }
    assert(models::vistas(ventas@) =~= antes.map_values(|v: VentaVista| ids_normales(v)));
}

pub fn normalize_text(ventas: &mut Vec<Venta>)
    ensures
        models::vistas(final(ventas)@) == models::vistas(old(ventas)@).map_values(
            |v: VentaVista| textos_normales(v),
        ),
{
    let ghost antes = models::vistas(ventas@);
    let n: usize = ventas.len();
    let mut i: usize = 0;
    while i < n
        invariant
            0 <= i <= n == ventas@.len() == antes.len(),
            forall|k: int| 0 <= k < i ==> (#[trigger] ventas@[k])@ == textos_normales(antes[k]),
            forall|k: int| i <= k < n ==> (#[trigger] ventas@[k])@ == antes[k],
        decreases n - i,
    {
        let nom_articulo = texto::recortar(ventas[i].nom_articulo.as_str());
        let nom_cliente = texto::recortar(ventas[i].nom_cliente.as_str());
        let nom_linea = texto::recortar(ventas[i].nom_linea.as_str());
        let tpo_doc = ventas[i].tpo_doc.as_str().to_uppercase();
        let v = &mut ventas[i];
        v.nom_articulo = nom_articulo;
        v.nom_cliente = nom_cliente;
        v.nom_linea = nom_linea;
        v.tpo_doc = tpo_doc;
        i = i + 1;
    }
    assert(models::vistas(ventas@) =~= antes.map_values(|v: VentaVista| textos_normales(v)));
}

/// Un codigo sin puntos ni blancos en los extremos se completa con ceros delante y no pierde
/// nada; los puntos se quitan todos.
pub proof fn ley_con_ceros(s: Seq<char>, w: int)
    requires
        s.len() > 0,
        texto::sin_bordes_blancos(s),
        !s.contains('.'),
    ensures
        ({
            let r = con_ceros(s, w);
            &&& r.len() == (if s.len() >= w {
                s.len() as int
            } else {
                w
            })
            &&& r.skip(r.len() - s.len()) == s
            &&& forall|i: int| 0 <= i < r.len() - s.len() ==> #[trigger] r[i] == '0'
        }),
        con_ceros(s.push('.'), w) == con_ceros(s, w),
{
    let nada = Seq::<char>::empty();
    texto::ley_recorte(nada, s, nada);
    assert forall|i: int| 0 <= i < s.len() implies #[trigger] s[i] != '.' by {
        assert(s.contains(s[i]));
    }
    texto::lema_reemplazo_nulo(s, '.', nada);
    texto::ley_relleno(s, w, '0');
    let t = s.push('.');
    assert(t[0] == s[0] && t.last() == '.');
    texto::ley_recorte(nada, t, nada);
    texto::ley_reemplazo(t, seq!['.'], nada);
    texto::lema_indice(t, seq!['.'], 0);
    assert(t.subrange(s.len() as int, t.len() as int) =~= seq!['.']);
    assert(texto::aparece(t, seq!['.'], s.len() as int));
    let i = texto::indice(t, seq!['.'], 0)->0;
    if i < s.len() {
        assert(t.subrange(i, i + 1)[0] == '.');
        assert(t[i] == s[i]);
    }
    assert(t.take(i) =~= s);
    assert(t.skip(i + 1) =~= nada);
    assert(texto::reemplazado(nada, seq!['.'], nada) =~= nada);
    assert(s + nada + nada =~= s);
}

/// Normalizar los codigos toca solo los cinco que se rellenan, cada uno a su ancho; normalizar
/// los textos, solo los tres nombres y el tipo de documento.
pub proof fn ley_normalizada(v: VentaVista)
    ensures
        ({
            let d = ids_normales(v);
            &&& d == (VentaVista {
                id_articulo: d.id_articulo,
                id_cliente: d.id_cliente,
                id_linea: d.id_linea,
                id_vendedor: d.id_vendedor,
                serie_doc: d.serie_doc,
                ..v
            })
            &&& d.id_articulo.len() == 0 || d.id_articulo.len() >= 6
            &&& d.id_cliente.len() == 0 || d.id_cliente.len() >= 5
            &&& d.id_linea.len() == 0 || d.id_linea.len() >= 4
            &&& d.id_vendedor.len() == 0 || d.id_vendedor.len() >= 5
            &&& d.serie_doc.len() == 0 || d.serie_doc.len() >= 3
            &&& d.id_articulo == con_ceros(v.id_articulo, 6)
            &&& d.id_cliente == con_ceros(v.id_cliente, 5)
            &&& d.id_linea == con_ceros(v.id_linea, 4)
            &&& d.id_vendedor == con_ceros(v.id_vendedor, 5)
            &&& d.serie_doc == con_ceros(v.serie_doc, 3)
        }),
        ({
            let d = textos_normales(v);
            &&& d == (VentaVista {
                nom_articulo: d.nom_articulo,
                nom_cliente: d.nom_cliente,
                nom_linea: d.nom_linea,
                tpo_doc: d.tpo_doc,
                ..v
            })
            &&& texto::sin_bordes_blancos(v.nom_articulo) ==> d.nom_articulo == v.nom_articulo
            &&& texto::sin_bordes_blancos(v.nom_cliente) ==> d.nom_cliente == v.nom_cliente
            &&& texto::sin_bordes_blancos(v.nom_linea) ==> d.nom_linea == v.nom_linea
            &&& texto::sin_bordes_blancos(d.nom_articulo) && texto::sin_bordes_blancos(d.nom_cliente)
                && texto::sin_bordes_blancos(d.nom_linea)
            &&& d.tpo_doc == texto::mayusculas(v.tpo_doc)
        }),
{
    let nada = Seq::<char>::empty();
    if texto::sin_bordes_blancos(v.nom_articulo) {
        texto::ley_recorte(nada, v.nom_articulo, nada);
    }
    if texto::sin_bordes_blancos(v.nom_cliente) {
        texto::ley_recorte(nada, v.nom_cliente, nada);
    }
    if texto::sin_bordes_blancos(v.nom_linea) {
        texto::ley_recorte(nada, v.nom_linea, nada);
    }
    let a = texto::ley_recorte_parte(v.nom_articulo);
    let b = texto::ley_recorte_parte(v.nom_cliente);
    let c = texto::ley_recorte_parte(v.nom_linea);
    ley_ancho(v.id_articulo, 6);
    ley_ancho(v.id_cliente, 5);
    ley_ancho(v.id_linea, 4);
    ley_ancho(v.id_vendedor, 5);
    ley_ancho(v.serie_doc, 3);
}

} // verus!
