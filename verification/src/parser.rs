//! Lectura de las exportaciones de la intranet: limpieza de cada celda, venta de
//! cada fila y reparto de las filas entre las que se guardan y las pendientes.

use crate::config;
use crate::fecha;
use crate::fecha::Fecha;
use crate::models;
use crate::models::Monto;
use crate::models::Venta;
use crate::models::VentaVista;
use crate::tabla;
use crate::tabla::Tabla;
use crate::texto;
use vstd::prelude::*;

verus! {

// ---------------------------------------------------------------------------
// Celdas
// ---------------------------------------------------------------------------

/// La letra sin tilde, para las vocales y la ene del castellano.
pub open spec fn sin_tilde(c: char) -> char {
    if c == '\u{00C1}' {
        'A'
    } else if c == '\u{00C9}' {
        'E'
    } else if c == '\u{00CD}' {
        'I'
    } else if c == '\u{00D3}' {
        'O'
    } else if c == '\u{00DA}' {
        'U'
    } else if c == '\u{00D1}' {
        'N'
    } else if c == '\u{00E1}' {
        'a'
    } else if c == '\u{00E9}' {
        'e'
    } else if c == '\u{00ED}' {
        'i'
    } else if c == '\u{00F3}' {
        'o'
    } else if c == '\u{00FA}' {
        'u'
    } else if c == '\u{00F1}' {
        'n'
    } else {
        c
    }
}

fn quitar_tilde(c: char) -> (r: char)
    ensures
        r == sin_tilde(c),
{
    match c {
        '\u{00C1}' => 'A',
        '\u{00C9}' => 'E',
        '\u{00CD}' => 'I',
        '\u{00D3}' => 'O',
        '\u{00DA}' => 'U',
        '\u{00D1}' => 'N',
        '\u{00E1}' => 'a',
        '\u{00E9}' => 'e',
        '\u{00ED}' => 'i',
        '\u{00F3}' => 'o',
        '\u{00FA}' => 'u',
        '\u{00F1}' => 'n',
        _ => c,
    }
}

/// Una celda limpia: sin blancos en los extremos, con cada par de espacios
/// reducido a uno y sin tildes.
pub open spec fn limpio(s: Seq<char>) -> Seq<char> {
    texto::reemplazado(
        texto::reemplazado(texto::recortado(s), seq!['\u{00A0}'], " "@),
        "  "@,
        " "@,
    ).map_values(|c: char| sin_tilde(c))
}

pub fn clean_str(s: &str) -> (r: String)
    ensures
        r@ == limpio(s@),
{
    proof {
        reveal_strlit("\u{00A0}");
        reveal_strlit("  ");
        assert("\u{00A0}"@ =~= seq!['\u{00A0}']);
    }
    let t = texto::recortar(s);
    let t = texto::reemplazar(t.as_str(), "\u{00A0}", " ");
    let t = texto::reemplazar(t.as_str(), "  ", " ");
    let v = texto::caracteres(t.as_str());
    let mut r = String::new();
    let mut i: usize = 0;
    while i < v.len()
        invariant
            0 <= i <= v@.len(),
            r@ == v@.take(i as int).map_values(|c: char| sin_tilde(c)),
        decreases v@.len() - i,
    {
        r.push(quitar_tilde(v[i]));
        i = i + 1;
        assert(r@ =~= v@.take(i as int).map_values(|c: char| sin_tilde(c)));
    }
    assert(v@.take(i as int) =~= v@);
    r
}

/// Sin los `.0` del final.
pub open spec fn sin_punto_cero(t: Seq<char>) -> Seq<char>
    decreases t.len(),
{
    if texto::termina(t, seq!['.', '0']) {
        sin_punto_cero(t.take(t.len() - 2))
    } else {
        t
    }
}

/// El texto que escriben otros programas donde no hay dato.
pub open spec fn es_nulo(t: Seq<char>) -> bool {
    let m = texto::minusculas(t);
    m == "nan"@ || m == "none"@ || m == "null"@ || m == "<na>"@
}

/// Un codigo limpio: sin blancos en los extremos, sin marca de orden de bytes y
/// sin el `.0` que deja una hoja de calculo; vacio donde no hay dato. Los ceros a
/// la izquierda se conservan.
pub open spec fn id_limpio(s: Seq<char>) -> Seq<char> {
    let t = texto::recortado(texto::reemplazado(texto::recortado(s), seq!['\u{feff}'], seq![]));
    if t.len() == 0 || es_nulo(t) {
        seq![]
    } else {
        sin_punto_cero(t)
    }
}

pub fn clean_id(s: &str) -> (r: String)
    ensures
        r@ == id_limpio(s@),
{
    proof {
        reveal_strlit("\u{feff}");
        reveal_strlit("");
        assert("\u{feff}"@ =~= seq!['\u{feff}']);
        assert(""@ =~= Seq::<char>::empty());
    }
    let t = texto::recortar(s);
    let t = texto::reemplazar(t.as_str(), "\u{feff}", "");
    let t = texto::recortar(t.as_str());
    let v = texto::caracteres(t.as_str());
    let mut n: usize = v.len();
    if n == 0 {
        return String::new();
    }
    let low = t.as_str().to_lowercase();
    if texto::iguales(low.as_str(), "nan") || texto::iguales(low.as_str(), "none")
        || texto::iguales(low.as_str(), "null") || texto::iguales(low.as_str(), "<na>") {
        return String::new();
    }
    assert(v@.take(n as int) =~= v@);
    while n >= 2 && v[n - 2] == '.' && v[n - 1] == '0'
        invariant
            0 <= n <= v@.len(),
            sin_punto_cero(v@.take(n as int)) == sin_punto_cero(v@),
        decreases n,
    {
        let ghost u = v@.take(n as int);
        assert(u.subrange(u.len() - 2, u.len() as int) =~= seq!['.', '0']);
        assert(texto::termina(u, seq!['.', '0']));
        assert(u.take(u.len() - 2) =~= v@.take(n - 2));
        n = n - 2;
    }
    proof {
        let u = v@.take(n as int);
        if texto::termina(u, seq!['.', '0']) {
            assert(u.subrange(u.len() - 2, u.len() as int)[0] == '.');
            assert(u.subrange(u.len() - 2, u.len() as int)[1] == '0');
            assert(false);
        }
    }
    let r = texto::cadena(&v, 0, n);
    assert(r@ =~= v@.take(n as int));
    r
}

/// Un codigo limpio nunca acaba en `.0`.
pub proof fn ley_id_sin_punto_cero(s: Seq<char>)
    ensures
        !texto::termina(id_limpio(s), seq!['.', '0']),
{
    let t = texto::recortado(texto::reemplazado(texto::recortado(s), seq!['\u{feff}'], seq![]));
    lema_sin_punto_cero(t);
}

proof fn lema_sin_punto_cero(t: Seq<char>)
    ensures
        !texto::termina(sin_punto_cero(t), seq!['.', '0']),
    decreases t.len(),
{
    if texto::termina(t, seq!['.', '0']) {
        lema_sin_punto_cero(t.take(t.len() - 2));
    }
}

pub fn normalize_doc_id(s: &str) -> (r: String)
    ensures
        r@ == id_limpio(s@),
{
    clean_id(s)
}

/// El codigo de cliente: con ceros a la izquierda hasta ocho caracteres, u once
/// si ocupa mas de ocho bytes.
pub open spec fn id_cliente(s: Seq<char>) -> Seq<char> {
    let t = id_limpio(s);
    if t.len() == 0 {
        seq![]
    } else if texto::bytes_de(t) <= 8 {
        texto::rellenado(t, 8, '0')
    } else {
        texto::rellenado(t, 11, '0')
    }
}

pub fn normalize_client_id(s: &str) -> (r: String)
    ensures
        r@ == id_cliente(s@),
{
    let t = clean_id(s);
    if t.as_str().unicode_len() == 0 {
        return String::new();
    }
    if texto::largo_bytes(t.as_str()) <= 8 {
        texto::rellenar(t.as_str(), 8, '0')
    } else {
        texto::rellenar(t.as_str(), 11, '0')
    }
}

// ---------------------------------------------------------------------------
// Numeros
// ---------------------------------------------------------------------------

/// Las columnas de cantidades, en las que el punto es siempre decimal. Las que nombran un
/// precio son de importes.
pub open spec fn es_columna_cantidad(col: Seq<char>) -> bool {
    let up = texto::mayusculas(texto::recortado(col));
    &&& !texto::contiene(up, "PRECIO"@)
    &&& up == "CANTIDAD"@ || up == "CANTIDAD FAE"@ || texto::contiene(up, "UNIDADES"@)
}

/// El numero que hay en una celda, escrito con punto decimal y sin separador de
/// miles. En una cantidad el punto es decimal y la coma se quita. En un importe
/// que lleva los dos, la coma es decimal; solo con comas, son de miles si hay
/// tres bytes o mas tras la primera; solo con puntos, es de miles si lo que sigue
/// al primero es `000`.
pub open spec fn numeral(celda: Seq<char>, es_cantidad: bool) -> Seq<char> {
    let s = texto::recortado(celda);
    if es_cantidad {
        texto::reemplazado(s, seq![','], seq![])
    } else {
        match (texto::indice(s, seq!['.'], 0), texto::indice(s, seq![','], 0)) {
            (Some(_), Some(_)) => texto::reemplazado(
                texto::reemplazado(s, seq!['.'], seq![]),
                seq![','],
                seq!['.'],
            ),
            (None, Some(i)) => if texto::bytes_de(s.skip(i + 1)) >= 3 {
                texto::reemplazado(s, seq![','], seq![])
            } else {
                texto::reemplazado(s, seq![','], seq!['.'])
            },
            (Some(i), None) => if s.skip(i + 1) == "000"@ {
                texto::reemplazado(s, seq!['.'], seq![])
            } else {
                s
            },
            (None, None) => s,
        }
    }
}

/// El texto del numero de una celda, listo para leerse como importe.
pub fn numeral_de(celda: &str, es_cantidad: bool) -> (r: String)
    ensures
        r@ == numeral(celda@, es_cantidad),
{
    proof {
        reveal_strlit(",");
        reveal_strlit(".");
        reveal_strlit("");
        assert(","@ =~= seq![',']);
        assert("."@ =~= seq!['.']);
        assert(""@ =~= Seq::<char>::empty());
    }
    let s = texto::recortar(celda);
    if es_cantidad {
        return texto::reemplazar(s.as_str(), ",", "");
    }
    let punto = texto::buscar(s.as_str(), ".");
    let coma = texto::buscar(s.as_str(), ",");
    proof {
        texto::lema_indice(s@, seq!['.'], 0);
        texto::lema_indice(s@, seq![','], 0);
    }
    match (punto, coma) {
        (Some(_), Some(_)) => {
            let t = texto::reemplazar(s.as_str(), ".", "");
            texto::reemplazar(t.as_str(), ",", ".")
        },
        (None, Some(i)) => {
            let v = texto::caracteres(s.as_str());
            let n: usize = v.len();
            let resto = texto::cadena(&v, i + 1, n);
            assert(resto@ =~= s@.skip(i + 1));
            if texto::largo_bytes(resto.as_str()) >= 3 {
                texto::reemplazar(s.as_str(), ",", "")
            } else {
                texto::reemplazar(s.as_str(), ",", ".")
            }
        },
        (Some(i), None) => {
            let v = texto::caracteres(s.as_str());
            let n: usize = v.len();
            let resto = texto::cadena(&v, i + 1, n);
            assert(resto@ =~= s@.skip(i + 1));
            if texto::iguales(resto.as_str(), "000") {
                texto::reemplazar(s.as_str(), ".", "")
            } else {
                s
            }
        },
        (None, None) => s,
    }
}

/// El texto del numero de una celda de la columna `col`.
pub fn numeral_columna(celda: &str, col: &str) -> (r: String)
    ensures
        r@ == numeral(celda@, es_columna_cantidad(col@)),
{
    proof {
        reveal_strlit("UNIDADES");
        reveal_strlit("PRECIO");
    }
    let t = texto::recortar(col);
    let up = t.as_str().to_uppercase();
    let es_cantidad = !texto::contiene_texto(up.as_str(), "PRECIO") && (texto::iguales(
        up.as_str(),
        "CANTIDAD",
    ) || texto::iguales(up.as_str(), "CANTIDAD FAE") || texto::contiene_texto(
        up.as_str(),
        "UNIDADES",
    ));
    numeral_de(celda, es_cantidad)
}

/// La cantidad entre la que se divide el importe para dar el precio unitario: la
/// del documento o, si es cero, la base del descuento. Si las dos son cero no hay
/// precio.
pub open spec fn base_de(cantidad: Monto, cantidad_fae: Monto) -> Option<Monto> {
    if !cantidad.nulo() {
        Some(cantidad)
    } else if !cantidad_fae.nulo() {
        Some(cantidad_fae)
    } else {
        None
    }
}

pub fn base_precio(cantidad: Monto, cantidad_fae: Monto) -> (r: Option<Monto>)
    ensures
        r == base_de(cantidad, cantidad_fae),
{
    if !cantidad.es_cero() {
        Some(cantidad)
    } else if !cantidad_fae.es_cero() {
        Some(cantidad_fae)
    } else {
        None
    }
}

// ---------------------------------------------------------------------------
// Campos derivados
// ---------------------------------------------------------------------------

pub open spec fn tipo_de(tpo_doc: Seq<char>, cantidad: Monto) -> Seq<char> {
    if tpo_doc == "NCR"@ {
        if cantidad.menor_que_cero() {
            "devolucion"@
        } else {
            "ajuste_valor"@
        }
    } else if tpo_doc == "NDB"@ {
        "nota_debito"@
    } else {
        "venta"@
    }
}

/// Serie y numero de la factura que nombra una referencia como `F01/204-50867`:
/// lo que sigue a la ultima barra, partido en el primer guion.
pub open spec fn factura_referida(referencia: Seq<char>) -> Option<(Seq<char>, Seq<char>)> {
    if texto::recortado(referencia).len() == 0 {
        None
    } else {
        match texto::partido(texto::tras_ultimo(referencia, '/'), '-') {
            Some(p) => Some((texto::mayusculas(id_limpio(p.0)), id_limpio(p.1))),
            None => None,
        }
    }
}

/// La venta con el tipo de operacion, la factura que corrige y el folio que se
/// siguen de sus otros campos. Sin referencia legible, la factura no cambia.
pub open spec fn derivada(v: VentaVista) -> VentaVista {
    let f = factura_referida(v.referencia);
    VentaVista {
        tipo_operacion: tipo_de(v.tpo_doc, v.cantidad),
        factura_ref_serie: match f {
            Some(p) => p.0,
            None => v.factura_ref_serie,
        },
        factura_ref_nro: match f {
            Some(p) => p.1,
            None => v.factura_ref_nro,
        },
        folio_unico: v.tpo_doc + "/"@ + v.serie_doc + "/"@ + v.nro_doc,
        ..v
    }
}

pub fn derivar_campos(v: &mut Venta)
    ensures
        final(v)@ == derivada(old(v)@),
{
    let tipo = if texto::iguales(v.tpo_doc.as_str(), "NCR") {
        if v.cantidad.es_negativo() {
            "devolucion"
        } else {
            "ajuste_valor"
        }
    } else if texto::iguales(v.tpo_doc.as_str(), "NDB") {
        "nota_debito"
    } else {
        "venta"
    };
    v.tipo_operacion = tipo.to_owned();
    let util = texto::recortar(v.referencia.as_str());
    if util.as_str().unicode_len() > 0 {
        let rest = texto::resto_tras_ultimo(v.referencia.as_str(), '/');
        match texto::partir_una(rest.as_str(), '-') {
            Some((s, n)) => {
                let serie = normalize_doc_id(s.as_str());
                v.factura_ref_serie = serie.as_str().to_uppercase();
                v.factura_ref_nro = normalize_doc_id(n.as_str());
            },
            None => {},
        }
    }
    let folio = texto::mas(v.tpo_doc.clone(), "/");
    let folio = texto::mas(texto::mas(folio, v.serie_doc.as_str()), "/");
    v.folio_unico = texto::mas(folio, v.nro_doc.as_str());
}

/// La fecha de una celda, en `dd/mm/aaaa` o `dd-mm-aaaa`; el comienzo de 1970 si
/// no se lee.
pub open spec fn fecha_de(celda: Seq<char>) -> Fecha {
    let s = texto::recortado(celda);
    if s.len() == 0 {
        fecha::fecha_epoca()
    } else {
        match fecha::fecha_leida(s, "%d/%m/%Y"@) {
            Some(f) => f,
            None => match fecha::fecha_leida(s, "%d-%m-%Y"@) {
                Some(f) => f,
                None => fecha::fecha_epoca(),
            },
        }
    }
}

pub fn parse_date(s: &str) -> (r: Fecha)
    ensures
        r == fecha_de(s@),
        r.valida(),
{
    let s = texto::recortar(s);
    if s.as_str().unicode_len() == 0 {
        return fecha::epoca();
    }
    match fecha::leer_fecha(s.as_str(), "%d/%m/%Y") {
        Some(f) => f,
        None => match fecha::leer_fecha(s.as_str(), "%d-%m-%Y") {
            Some(f) => f,
            None => fecha::epoca(),
        },
    }
}

/// El documento es una nota de credito o de debito.
pub open spec fn nota(tpo_doc: Seq<char>) -> bool {
    texto::contiene(texto::mayusculas(tpo_doc), "NCR"@) || texto::contiene(
        texto::mayusculas(tpo_doc),
        "NDB"@,
    )
}

pub fn es_nc_nd(tpo_doc: &str) -> (r: bool)
    ensures
        r == nota(tpo_doc@),
{
    proof {
        reveal_strlit("NCR");
        reveal_strlit("NDB");
    }
    let t = tpo_doc.to_uppercase();
    texto::contiene_texto(t.as_str(), "NCR") || texto::contiene_texto(t.as_str(), "NDB")
}

// ---------------------------------------------------------------------------
// Columnas
// ---------------------------------------------------------------------------

/// La cabecera como se compara: sin blancos en los extremos y en mayusculas.
pub open spec fn cabecera_util(h: Seq<Seq<char>>) -> Seq<Seq<char>> {
    h.map_values(|c: Seq<char>| texto::mayusculas(texto::recortado(c)))
}

/// La primera columna, desde `desde`, cuyo titulo contiene `nombre`.
pub open spec fn columna_desde(h: Seq<Seq<char>>, nombre: Seq<char>, desde: int) -> Option<int>
    decreases h.len() - desde,
{
    if desde < 0 || desde >= h.len() {
        None
    } else if texto::contiene(h[desde], nombre) {
        Some(desde)
    } else {
        columna_desde(h, nombre, desde + 1)
    }
}

pub open spec fn columna(h: Seq<Seq<char>>, nombre: Seq<char>) -> Option<int> {
    columna_desde(h, nombre, 0)
}

/// La primera columna que da el importe: `SOLES` o, si no hay, `TOTAL`.
pub open spec fn columna_soles(h: Seq<Seq<char>>) -> Option<int> {
    match columna(h, "SOLES"@) {
        Some(i) => Some(i),
        None => columna(h, "TOTAL"@),
    }
}

/// Lo que hay en una columna de una fila, limpio; vacio si no hay tal columna.
pub open spec fn celda(fila: Seq<Seq<char>>, c: Option<int>) -> Seq<char> {
    limpio(
        match c {
            Some(i) => if 0 <= i < fila.len() {
                fila[i]
            } else {
                seq![]
            },
            None => seq![],
        },
    )
}

pub open spec fn posicion(o: Option<usize>) -> Option<int> {
    match o {
        Some(i) => Some(i as int),
        None => None,
    }
}

fn cabecera_normal(h: &Vec<String>) -> (r: Vec<String>)
    ensures
        texto::textos(r@) == cabecera_util(texto::textos(h@)),
{
    let mut r: Vec<String> = Vec::new();
    let mut i: usize = 0;
    while i < h.len()
        invariant
            0 <= i <= h@.len(),
            r@.len() == i,
            forall|k: int|
                0 <= k < i ==> (#[trigger] r@[k])@ == texto::mayusculas(texto::recortado(h@[k]@)),
        decreases h@.len() - i,
    {
        let t = texto::recortar(h[i].as_str());
        r.push(t.as_str().to_uppercase());
        i = i + 1;
    }
    assert(texto::textos(r@) =~= cabecera_util(texto::textos(h@)));
    r
}

fn buscar_columna(h: &Vec<String>, nombre: &str) -> (r: Option<usize>)
    requires
        nombre@.len() > 0,
    ensures
        posicion(r) == columna(texto::textos(h@), nombre@),
{
    let ghost hs = texto::textos(h@);
    let mut i: usize = 0;
    while i < h.len()
        invariant
            0 <= i <= h@.len(),
            hs == texto::textos(h@),
            nombre@.len() > 0,
            columna(hs, nombre@) == columna_desde(hs, nombre@, i as int),
        decreases h@.len() - i,
    {
        if texto::contiene_texto(h[i].as_str(), nombre) {
            assert(hs[i as int] == h@[i as int]@);
            return Some(i);
        }
        assert(hs[i as int] == h@[i as int]@);
        i = i + 1;
    }
    None
}

fn celda_de(fila: &Vec<String>, c: Option<usize>) -> (r: String)
    ensures
        r@ == celda(texto::textos(fila@), posicion(c)),
{
    match c {
        Some(i) => if i < fila.len() {
            assert(texto::textos(fila@)[i as int] == fila@[i as int]@);
            clean_str(fila[i].as_str())
        } else {
            proof {
                reveal_strlit("");
                assert(""@ =~= Seq::<char>::empty());
            }
            clean_str("")
        },
        None => {
            proof {
                reveal_strlit("");
                assert(""@ =~= Seq::<char>::empty());
            }
            clean_str("")
        },
    }
}

/// Donde esta cada dato en una exportacion.
pub struct Columnas {
    pub anho: Option<usize>,
    pub id_cliente: Option<usize>,
    pub doc_cliente: Option<usize>,
    pub nom_cliente: Option<usize>,
    pub departamento: Option<usize>,
    pub provincia: Option<usize>,
    pub distrito: Option<usize>,
    pub id_linea: Option<usize>,
    pub nom_linea: Option<usize>,
    pub id_grupo: Option<usize>,
    pub nom_grupo: Option<usize>,
    pub id_tipo: Option<usize>,
    pub nom_tipo: Option<usize>,
    pub id_familia: Option<usize>,
    pub nom_familia: Option<usize>,
    pub id_articulo: Option<usize>,
    pub nom_articulo: Option<usize>,
    pub id_vendedor: Option<usize>,
    pub nom_vendedor: Option<usize>,
    pub cod_sucursal: Option<usize>,
    pub nom_sucursal: Option<usize>,
    pub tpo_doc: Option<usize>,
    pub serie_doc: Option<usize>,
    pub nro_doc: Option<usize>,
    pub fecha_orig: Option<usize>,
    pub referencia: Option<usize>,
    pub fecha_ref: Option<usize>,
    pub moneda: Option<usize>,
    pub cantidad: Option<usize>,
    pub cantidad_fae: Option<usize>,
    pub soles: Option<usize>,
    pub dolares: Option<usize>,
    pub id_pedido: Option<usize>,
    pub fecha_venc: Option<usize>,
}

impl Columnas {
    pub open spec fn de(self, h: Seq<Seq<char>>) -> bool {
        &&& posicion(self.anho) == columna(h, "ANHO"@)
        &&& posicion(self.id_cliente) == columna(h, "ID_CLIENTE"@)
        &&& posicion(self.doc_cliente) == columna(h, "DOC_CLIENTE"@)
        &&& posicion(self.nom_cliente) == columna(h, "NOM_CLIENTE"@)
        &&& posicion(self.departamento) == columna(h, "NOM_DEPARTAMENTO"@)
        &&& posicion(self.provincia) == columna(h, "NOM_PROVINCIA"@)
        &&& posicion(self.distrito) == columna(h, "NOM_DISTRITO"@)
        &&& posicion(self.id_linea) == columna(h, "ID_LINEA"@)
        &&& posicion(self.nom_linea) == columna(h, "NOM_LINEA"@)
        &&& posicion(self.id_grupo) == columna(h, "ID_GRUPO"@)
        &&& posicion(self.nom_grupo) == columna(h, "NOM_GRUPO"@)
        &&& posicion(self.id_tipo) == columna(h, "ID_TIPO"@)
        &&& posicion(self.nom_tipo) == columna(h, "NOM_TIPO"@)
        &&& posicion(self.id_familia) == columna(h, "ID_FAMILIA"@)
        &&& posicion(self.nom_familia) == columna(h, "NOM_FAMILIA"@)
        &&& posicion(self.id_articulo) == columna(h, "ID_ARTICULO"@)
        &&& posicion(self.nom_articulo) == columna(h, "NOM_ARTICULO"@)
        &&& posicion(self.id_vendedor) == columna(h, "ID_VENDEDOR"@)
        &&& posicion(self.nom_vendedor) == columna(h, "NOM_VENDEDOR"@)
        &&& posicion(self.cod_sucursal) == columna(h, "COD_SUCURSAL"@)
        &&& posicion(self.nom_sucursal) == columna(h, "NOM_SUCURSAL"@)
        &&& posicion(self.tpo_doc) == columna(h, "TPO_DOC"@)
        &&& posicion(self.serie_doc) == columna(h, "SERIE_DOC"@)
        &&& posicion(self.nro_doc) == columna(h, "NRO_DOC"@)
        &&& posicion(self.fecha_orig) == columna(h, "FECHA_ORIG"@)
        &&& posicion(self.referencia) == columna(h, "REFERENCIA"@)
        &&& posicion(self.fecha_ref) == columna(h, "FECHA_REF"@)
        &&& posicion(self.moneda) == columna(h, "MONEDA"@)
        &&& posicion(self.cantidad) == columna(h, "CANTIDAD"@)
        &&& posicion(self.cantidad_fae) == columna(h, "CANTIDAD FAE"@)
        &&& posicion(self.soles) == columna_soles(h)
        &&& posicion(self.dolares) == columna(h, "DOLARES"@)
        &&& posicion(self.id_pedido) == columna(h, "ID_PEDIDO"@)
        &&& posicion(self.fecha_venc) == columna(h, "FECHA_VENC"@)
    }
}

fn columnas_export(h: &Vec<String>) -> (r: Columnas)
    ensures
        r.de(texto::textos(h@)),
{
    proof {
        reveal_strlit("ANHO");
        reveal_strlit("ID_CLIENTE");
        reveal_strlit("DOC_CLIENTE");
        reveal_strlit("NOM_CLIENTE");
        reveal_strlit("NOM_DEPARTAMENTO");
        reveal_strlit("NOM_PROVINCIA");
        reveal_strlit("NOM_DISTRITO");
        reveal_strlit("ID_LINEA");
        reveal_strlit("NOM_LINEA");
        reveal_strlit("ID_GRUPO");
        reveal_strlit("NOM_GRUPO");
        reveal_strlit("ID_TIPO");
        reveal_strlit("NOM_TIPO");
        reveal_strlit("ID_FAMILIA");
        reveal_strlit("NOM_FAMILIA");
        reveal_strlit("ID_ARTICULO");
        reveal_strlit("NOM_ARTICULO");
        reveal_strlit("ID_VENDEDOR");
        reveal_strlit("NOM_VENDEDOR");
        reveal_strlit("COD_SUCURSAL");
        reveal_strlit("NOM_SUCURSAL");
        reveal_strlit("TPO_DOC");
        reveal_strlit("SERIE_DOC");
        reveal_strlit("NRO_DOC");
        reveal_strlit("FECHA_ORIG");
        reveal_strlit("REFERENCIA");
        reveal_strlit("FECHA_REF");
        reveal_strlit("MONEDA");
        reveal_strlit("CANTIDAD");
        reveal_strlit("CANTIDAD FAE");
        reveal_strlit("SOLES");
        reveal_strlit("DOLARES");
        reveal_strlit("ID_PEDIDO");
        reveal_strlit("FECHA_VENC");
        reveal_strlit("TOTAL");
    }
    let soles = match buscar_columna(h, "SOLES") {
        Some(i) => Some(i),
        None => buscar_columna(h, "TOTAL"),
    };
    Columnas {
        anho: buscar_columna(h, "ANHO"),
        id_cliente: buscar_columna(h, "ID_CLIENTE"),
        doc_cliente: buscar_columna(h, "DOC_CLIENTE"),
        nom_cliente: buscar_columna(h, "NOM_CLIENTE"),
        departamento: buscar_columna(h, "NOM_DEPARTAMENTO"),
        provincia: buscar_columna(h, "NOM_PROVINCIA"),
        distrito: buscar_columna(h, "NOM_DISTRITO"),
        id_linea: buscar_columna(h, "ID_LINEA"),
        nom_linea: buscar_columna(h, "NOM_LINEA"),
        id_grupo: buscar_columna(h, "ID_GRUPO"),
        nom_grupo: buscar_columna(h, "NOM_GRUPO"),
        id_tipo: buscar_columna(h, "ID_TIPO"),
        nom_tipo: buscar_columna(h, "NOM_TIPO"),
        id_familia: buscar_columna(h, "ID_FAMILIA"),
        nom_familia: buscar_columna(h, "NOM_FAMILIA"),
        id_articulo: buscar_columna(h, "ID_ARTICULO"),
        nom_articulo: buscar_columna(h, "NOM_ARTICULO"),
        id_vendedor: buscar_columna(h, "ID_VENDEDOR"),
        nom_vendedor: buscar_columna(h, "NOM_VENDEDOR"),
        cod_sucursal: buscar_columna(h, "COD_SUCURSAL"),
        nom_sucursal: buscar_columna(h, "NOM_SUCURSAL"),
        tpo_doc: buscar_columna(h, "TPO_DOC"),
        serie_doc: buscar_columna(h, "SERIE_DOC"),
        nro_doc: buscar_columna(h, "NRO_DOC"),
        fecha_orig: buscar_columna(h, "FECHA_ORIG"),
        referencia: buscar_columna(h, "REFERENCIA"),
        fecha_ref: buscar_columna(h, "FECHA_REF"),
        moneda: buscar_columna(h, "MONEDA"),
        cantidad: buscar_columna(h, "CANTIDAD"),
        cantidad_fae: buscar_columna(h, "CANTIDAD FAE"),
        soles,
        dolares: buscar_columna(h, "DOLARES"),
        id_pedido: buscar_columna(h, "ID_PEDIDO"),
        fecha_venc: buscar_columna(h, "FECHA_VENC"),
    }
}

// ---------------------------------------------------------------------------
// Filas
// ---------------------------------------------------------------------------

/// Los numeros de una fila, escritos con punto decimal y sin separador de miles.
pub struct Numerales {
    pub cantidad: String,
    pub cantidad_fae: String,
    pub soles: String,
    pub dolares: String,
}

#[verifier::ext_equal]
pub struct NumeralesVista {
    pub cantidad: Seq<char>,
    pub cantidad_fae: Seq<char>,
    pub soles: Seq<char>,
    pub dolares: Seq<char>,
}

impl View for Numerales {
    type V = NumeralesVista;

    open spec fn view(&self) -> NumeralesVista {
        NumeralesVista {
            cantidad: self.cantidad@,
            cantidad_fae: self.cantidad_fae@,
            soles: self.soles@,
            dolares: self.dolares@,
        }
    }
}

/// Los importes de una fila.
#[derive(Debug, Clone, Copy, PartialEq, Eq, Structural)]
pub struct Montos {
    pub cantidad: Monto,
    pub cantidad_fae: Monto,
    pub soles: Monto,
    pub dolares: Monto,
    pub precio_unitario: Monto,
}

pub open spec fn numerales_fila(h: Seq<Seq<char>>, fila: Seq<Seq<char>>) -> NumeralesVista {
    NumeralesVista {
        cantidad: numeral(
            celda(fila, columna(h, "CANTIDAD"@)),
            es_columna_cantidad("CANTIDAD"@),
        ),
        cantidad_fae: numeral(
            celda(fila, columna(h, "CANTIDAD FAE"@)),
            es_columna_cantidad("CANTIDAD FAE"@),
        ),
        soles: numeral(celda(fila, columna_soles(h)), es_columna_cantidad("SOLES"@)),
        dolares: numeral(
            celda(fila, columna(h, "DOLARES"@)),
            es_columna_cantidad("DOLARES"@),
        ),
    }
}

/// Mes de una etiqueta `aaaa-mm...`: sus bytes quinto y sexto, o cero si no son un
/// numero.
pub open spec fn mes_etiqueta(etiqueta: Seq<char>) -> int {
    entero_o_cero(texto::corte_bytes(etiqueta, 5, 7))
}

/// Ano de una etiqueta `aaaa-mm...`: sus cuatro primeros bytes, o cero.
pub open spec fn anho_etiqueta(etiqueta: Seq<char>) -> int {
    entero_o_cero(texto::corte_bytes(etiqueta, 0, 4))
}

pub open spec fn entero_o_cero(s: Option<Seq<char>>) -> int {
    match s {
        None => 0,
        Some(t) => match texto::entero_leido(t, i32::MIN as int, i32::MAX as int) {
            Some(n) => n,
            None => 0,
        },
    }
}

pub open spec fn no_vacio(s: Seq<char>) -> Option<Seq<char>> {
    if s.len() == 0 {
        None
    } else {
        Some(s)
    }
}

/// La venta que hay en una fila de la exportacion, sin los campos derivados.
pub open spec fn venta_cruda(
    h: Seq<Seq<char>>,
    fila: Seq<Seq<char>>,
    m: Montos,
    etiqueta: Seq<char>,
    archivo: Seq<char>,
) -> VentaVista {
    VentaVista {
        id_articulo: id_limpio(celda(fila, columna(h, "ID_ARTICULO"@))),
        original_sku: celda(fila, columna(h, "ID_ARTICULO"@)),
        nom_articulo: celda(fila, columna(h, "NOM_ARTICULO"@)),
        id_linea: celda(fila, columna(h, "ID_LINEA"@)),
        nom_linea: celda(fila, columna(h, "NOM_LINEA"@)),
        id_grupo: celda(fila, columna(h, "ID_GRUPO"@)),
        nom_grupo: celda(fila, columna(h, "NOM_GRUPO"@)),
        id_tipo: celda(fila, columna(h, "ID_TIPO"@)),
        nom_tipo: celda(fila, columna(h, "NOM_TIPO"@)),
        id_familia: celda(fila, columna(h, "ID_FAMILIA"@)),
        nom_familia: celda(fila, columna(h, "NOM_FAMILIA"@)),
        id_cliente: id_cliente(celda(fila, columna(h, "ID_CLIENTE"@))),
        doc_cliente: celda(fila, columna(h, "DOC_CLIENTE"@)),
        nom_cliente: celda(fila, columna(h, "NOM_CLIENTE"@)),
        tpo_doc: texto::mayusculas(celda(fila, columna(h, "TPO_DOC"@))),
        serie_doc: texto::mayusculas(id_limpio(celda(fila, columna(h, "SERIE_DOC"@)))),
        nro_doc: id_limpio(celda(fila, columna(h, "NRO_DOC"@))),
        referencia: celda(fila, columna(h, "REFERENCIA"@)),
        moneda: match no_vacio(celda(fila, columna(h, "MONEDA"@))) {
            Some(x) => x,
            None => "Soles"@,
        },
        cantidad: m.cantidad,
        cantidad_fae: m.cantidad_fae,
        soles: m.soles,
        dolares: m.dolares,
        precio_unitario: m.precio_unitario,
        anho: entero_o_cero(Some(celda(fila, columna(h, "ANHO"@)))) as i32,
        mes: mes_etiqueta(etiqueta) as i32,
        fecha_orig: fecha_de(celda(fila, columna(h, "FECHA_ORIG"@))),
        fecha_ref: no_vacio(celda(fila, columna(h, "FECHA_REF"@))),
        fecha_venc: no_vacio(celda(fila, columna(h, "FECHA_VENC"@))),
        cod_sucursal: celda(fila, columna(h, "COD_SUCURSAL"@)),
        nom_sucursal: celda(fila, columna(h, "NOM_SUCURSAL"@)),
        departamento: celda(fila, columna(h, "NOM_DEPARTAMENTO"@)),
        provincia: celda(fila, columna(h, "NOM_PROVINCIA"@)),
        distrito: celda(fila, columna(h, "NOM_DISTRITO"@)),
        id_vendedor: celda(fila, columna(h, "ID_VENDEDOR"@)),
        nom_vendedor: celda(fila, columna(h, "NOM_VENDEDOR"@)),
        id_pedido: celda(fila, columna(h, "ID_PEDIDO"@)),
        file_source: archivo,
        mes_ref: etiqueta,
        tipo_operacion: seq![],
        factura_ref_serie: seq![],
        factura_ref_nro: seq![],
        folio_unico: seq![],
    }
}

pub open spec fn venta_fila(
    h: Seq<Seq<char>>,
    fila: Seq<Seq<char>>,
    m: Montos,
    etiqueta: Seq<char>,
    archivo: Seq<char>,
) -> VentaVista {
    derivada(venta_cruda(h, fila, m, etiqueta, archivo))
}

/// Una fila sirve si tiene articulo y cliente.
pub open spec fn util(v: VentaVista) -> bool {
    v.id_articulo.len() > 0 && v.id_cliente.len() > 0
}

/// Las ventas de las `n` primeras filas que sirven.
pub open spec fn ventas_utiles(
    h: Seq<Seq<char>>,
    filas: Seq<Seq<Seq<char>>>,
    montos: Seq<Montos>,
    etiqueta: Seq<char>,
    archivo: Seq<char>,
    n: nat,
) -> Seq<VentaVista>
    decreases n,
{
    if n == 0 {
        seq![]
    } else {
        let previas = ventas_utiles(h, filas, montos, etiqueta, archivo, (n - 1) as nat);
        let v = venta_fila(h, filas[n - 1], montos[n - 1], etiqueta, archivo);
        if util(v) {
            previas.push(v)
        } else {
            previas
        }
    }
}

fn leer_entero(s: &str) -> (r: i32)
    ensures
        r == entero_o_cero(Some(s@)),
{
    match texto::leer_i32(s) {
        Some(n) => n,
        None => 0,
    }
}

fn entero_corte(s: &str, a: usize, b: usize) -> (r: i32)
    ensures
        r == entero_o_cero(texto::corte_bytes(s@, a as int, b as int)),
{
    match texto::cortar_bytes(s, a, b) {
        Some(t) => leer_entero(t.as_str()),
        None => 0,
    }
}

fn opcional(s: String) -> (r: Option<String>)
    ensures
        models::texto_opcional(r) == no_vacio(s@),
{
    if s.as_str().unicode_len() == 0 {
        None
    } else {
        Some(s)
    }
}

fn numerales_de(c: &Columnas, fila: &Vec<String>, Ghost(h): Ghost<Seq<Seq<char>>>) -> (r: Numerales)
    requires
        c.de(h),
    ensures
        r@ == numerales_fila(h, texto::textos(fila@)),
{
    Numerales {
        cantidad: numeral_columna(celda_de(fila, c.cantidad).as_str(), "CANTIDAD"),
        cantidad_fae: numeral_columna(celda_de(fila, c.cantidad_fae).as_str(), "CANTIDAD FAE"),
        soles: numeral_columna(celda_de(fila, c.soles).as_str(), "SOLES"),
        dolares: numeral_columna(celda_de(fila, c.dolares).as_str(), "DOLARES"),
    }
}

fn venta_de(
    c: &Columnas,
    fila: &Vec<String>,
    m: Montos,
    etiqueta: &str,
    archivo: &str,
    Ghost(h): Ghost<Seq<Seq<char>>>,
) -> (r: Venta)
    requires
        c.de(h),
    ensures
        r@ == venta_fila(h, texto::textos(fila@), m, etiqueta@, archivo@),
{
    let mut v = Venta {
        id_articulo: normalize_doc_id(celda_de(fila, c.id_articulo).as_str()),
        original_sku: celda_de(fila, c.id_articulo),
        nom_articulo: celda_de(fila, c.nom_articulo),
        id_linea: celda_de(fila, c.id_linea),
        nom_linea: celda_de(fila, c.nom_linea),
        id_grupo: celda_de(fila, c.id_grupo),
        nom_grupo: celda_de(fila, c.nom_grupo),
        id_tipo: celda_de(fila, c.id_tipo),
        nom_tipo: celda_de(fila, c.nom_tipo),
        id_familia: celda_de(fila, c.id_familia),
        nom_familia: celda_de(fila, c.nom_familia),
        id_cliente: normalize_client_id(celda_de(fila, c.id_cliente).as_str()),
        doc_cliente: celda_de(fila, c.doc_cliente),
        nom_cliente: celda_de(fila, c.nom_cliente),
        tpo_doc: celda_de(fila, c.tpo_doc).as_str().to_uppercase(),
        serie_doc: normalize_doc_id(celda_de(fila, c.serie_doc).as_str()).as_str().to_uppercase(),
        nro_doc: normalize_doc_id(celda_de(fila, c.nro_doc).as_str()),
        referencia: celda_de(fila, c.referencia),
        moneda: match opcional(celda_de(fila, c.moneda)) {
            Some(x) => x,
            None => "Soles".to_owned(),
        },
        cantidad: m.cantidad,
        cantidad_fae: m.cantidad_fae,
        soles: m.soles,
        dolares: m.dolares,
        precio_unitario: m.precio_unitario,
        anho: leer_entero(celda_de(fila, c.anho).as_str()),
        mes: entero_corte(etiqueta, 5, 7),
        fecha_orig: parse_date(celda_de(fila, c.fecha_orig).as_str()),
        fecha_ref: opcional(celda_de(fila, c.fecha_ref)),
        fecha_venc: opcional(celda_de(fila, c.fecha_venc)),
        cod_sucursal: celda_de(fila, c.cod_sucursal),
        nom_sucursal: celda_de(fila, c.nom_sucursal),
        departamento: celda_de(fila, c.departamento),
        provincia: celda_de(fila, c.provincia),
        distrito: celda_de(fila, c.distrito),
        id_vendedor: celda_de(fila, c.id_vendedor),
        nom_vendedor: celda_de(fila, c.nom_vendedor),
        id_pedido: celda_de(fila, c.id_pedido),
        file_source: archivo.to_owned(),
        mes_ref: etiqueta.to_owned(),
        tipo_operacion: String::new(),
        factura_ref_serie: String::new(),
        factura_ref_nro: String::new(),
        folio_unico: String::new(),
    };
    assert(v@ =~= venta_cruda(h, texto::textos(fila@), m, etiqueta@, archivo@));
    derivar_campos(&mut v);
    v
}

pub open spec fn numerales_vistas(v: Seq<Numerales>) -> Seq<NumeralesVista> {
    v.map_values(|n: Numerales| n@)
}

/// Una exportacion leida: la tabla, donde esta cada dato y los numeros de cada
/// fila.
pub struct Export {
    pub tabla: Tabla,
    pub columnas: Columnas,
    pub numerales: Vec<Numerales>,
}

impl Export {
    pub open spec fn cabecera(self) -> Seq<Seq<char>> {
        cabecera_util(self.tabla@.cabecera)
    }

    pub open spec fn coherente(self) -> bool {
        &&& self.columnas.de(self.cabecera())
        &&& numerales_vistas(self.numerales@) == Seq::new(
            self.tabla@.filas.len(),
            |i: int| numerales_fila(self.cabecera(), self.tabla@.filas[i]),
        )
    }

    /// Las ventas de las filas que sirven.
    pub open spec fn ventas(
        self,
        montos: Seq<Montos>,
        etiqueta: Seq<char>,
        archivo: Seq<char>,
    ) -> Seq<VentaVista> {
        ventas_utiles(
            self.cabecera(),
            self.tabla@.filas,
            montos,
            etiqueta,
            archivo,
            self.tabla@.filas.len(),
        )
    }
}

/// Situa las columnas de una exportacion y prepara los numeros de sus filas.
pub fn preparar_export(tabla: Tabla) -> (r: Export)
    ensures
        r.tabla == tabla,
        r.coherente(),
{
    let normal = cabecera_normal(&tabla.cabecera);
    let columnas = columnas_export(&normal);
    let ghost h = texto::textos(normal@);
    let mut numerales: Vec<Numerales> = Vec::new();
    let mut i: usize = 0;
    while i < tabla.filas.len()
        invariant
            0 <= i <= tabla.filas@.len(),
            columnas.de(h),
            h == cabecera_util(tabla@.cabecera),
            numerales@.len() == i,
            forall|k: int|
                0 <= k < i ==> (#[trigger] numerales@[k])@ == numerales_fila(h, tabla@.filas[k]),
        decreases tabla.filas@.len() - i,
    {
        numerales.push(numerales_de(&columnas, &tabla.filas[i], Ghost(h)));
        assert(tabla@.filas[i as int] == texto::textos(tabla.filas@[i as int]@));
        i = i + 1;
    }
    assert(numerales_vistas(numerales@) =~= Seq::new(
        tabla@.filas.len(),
        |i: int| numerales_fila(h, tabla@.filas[i]),
    ));
    Export { tabla, columnas, numerales }
}

/// Lee una exportacion en CSV.
pub fn abrir_export(datos: &[u8]) -> (r: Result<Export, String>)
    ensures
        match r {
            Ok(e) => tabla::csv_leido(datos@) == Ok::<
                (Seq<Seq<char>>, Seq<Seq<Seq<char>>>),
                Seq<char>,
            >((e.tabla@.cabecera, e.tabla@.filas)) && e.coherente(),
            Err(m) => tabla::csv_leido(datos@) == Err::<
                (Seq<Seq<char>>, Seq<Seq<Seq<char>>>),
                Seq<char>,
            >(m@),
        },
{
    match tabla::leer_csv(datos) {
        Ok(t) => Ok(preparar_export(t)),
        Err(m) => Err(m),
    }
}

/// La etiqueta de un archivo: su nombre sin extension y sin `ventas_`.
pub open spec fn etiqueta_de(stem: Option<Seq<char>>) -> Seq<char> {
    texto::reemplazado(
        match stem {
            Some(s) => s,
            None => "unknown"@,
        },
        "ventas_"@,
        seq![],
    )
}

pub fn etiqueta_archivo(stem: Option<&str>) -> (r: String)
    ensures
        r@ == etiqueta_de(
            match stem {
                Some(s) => Some(s@),
                None => None,
            },
        ),
{
    proof {
        reveal_strlit("ventas_");
        reveal_strlit("");
        assert(""@ =~= Seq::<char>::empty());
    }
    let base = match stem {
        Some(s) => s,
        None => "unknown",
    };
    texto::reemplazar(base, "ventas_", "")
}

/// Las ventas de las filas que sirven, con los importes `montos`.
pub fn filas_export(e: &Export, montos: &Vec<Montos>, etiqueta: &str, archivo: &str) -> (r: Vec<
    Venta,
>)
    requires
        e.coherente(),
        montos@.len() == e.tabla@.filas.len(),
    ensures
        models::vistas(r@) == e.ventas(montos@, etiqueta@, archivo@),
{
    let ghost h = e.cabecera();
    let mut r: Vec<Venta> = Vec::new();
    let mut i: usize = 0;
    assert(models::vistas(r@) =~= Seq::<VentaVista>::empty());
    while i < e.tabla.filas.len()
        invariant
            0 <= i <= e.tabla.filas@.len(),
            e.coherente(),
            h == e.cabecera(),
            montos@.len() == e.tabla@.filas.len(),
            models::vistas(r@) == ventas_utiles(
                h,
                e.tabla@.filas,
                montos@,
                etiqueta@,
                archivo@,
                i as nat,
            ),
        decreases e.tabla.filas@.len() - i,
    {
        let v = venta_de(&e.columnas, &e.tabla.filas[i], montos[i], etiqueta, archivo, Ghost(h));
        assert(e.tabla@.filas[i as int] == texto::textos(e.tabla.filas@[i as int]@));
        let ghost antes = r@;
        if v.id_articulo.as_str().unicode_len() > 0 && v.id_cliente.as_str().unicode_len() > 0 {
            r.push(v);
            assert(models::vistas(r@) =~= models::vistas(antes).push(v@));
        }
        i = i + 1;
    }
    r
}

// ---------------------------------------------------------------------------
// Reparto de las filas
// ---------------------------------------------------------------------------

/// Ventas que se guardan y notas cuya factura no esta en el archivo.
pub struct ParseOutput {
    pub ventas: Vec<Venta>,
    pub nc_nd_pendientes: Vec<Venta>,
}

/// Lo que se hace con una fila.
pub enum Destino {
    Aceptada,
    Pendiente,
    Excluida,
}

/// La fila es de la factura `serie`-`nro`.
pub open spec fn es_factura(v: VentaVista, serie: Seq<char>, nro: Seq<char>) -> bool {
    &&& !nota(v.tpo_doc)
    &&& v.serie_doc.len() > 0 && v.nro_doc.len() > 0
    &&& v.serie_doc == serie && v.nro_doc == nro
}

/// La factura esta entre las filas.
pub open spec fn factura_presente(filas: Seq<VentaVista>, serie: Seq<char>, nro: Seq<char>) -> bool {
    exists|i: int| 0 <= i < filas.len() && #[trigger] es_factura(filas[i], serie, nro)
}

/// Alguna fila de la factura es de una linea permitida.
pub open spec fn factura_permitida(
    filas: Seq<VentaVista>,
    lineas: Seq<Seq<char>>,
    serie: Seq<char>,
    nro: Seq<char>,
) -> bool {
    exists|i: int|
        0 <= i < filas.len() && #[trigger] es_factura(filas[i], serie, nro) && config::permitida(
            lineas,
            filas[i].id_linea,
        )
}

/// Una fila de linea permitida se acepta. Una nota de otra linea sigue a la
/// factura que corrige: se acepta con ella, se excluye con ella o queda pendiente
/// si la factura no esta. Lo demas se excluye.
pub open spec fn destino(
    filas: Seq<VentaVista>,
    lineas: Seq<Seq<char>>,
    v: VentaVista,
) -> Destino {
    let serie = v.factura_ref_serie;
    let nro = v.factura_ref_nro;
    if config::permitida(lineas, v.id_linea) {
        Destino::Aceptada
    } else if !nota(v.tpo_doc) || serie.len() == 0 || nro.len() == 0 {
        Destino::Excluida
    } else if !factura_presente(filas, serie, nro) {
        Destino::Pendiente
    } else if factura_permitida(filas, lineas, serie, nro) {
        Destino::Aceptada
    } else {
        Destino::Excluida
    }
}

pub open spec fn aceptadas(filas: Seq<VentaVista>, lineas: Seq<Seq<char>>) -> Seq<VentaVista> {
    filas.filter(|v: VentaVista| destino(filas, lineas, v) is Aceptada)
}

pub open spec fn pendientes(filas: Seq<VentaVista>, lineas: Seq<Seq<char>>) -> Seq<VentaVista> {
    filas.filter(|v: VentaVista| destino(filas, lineas, v) is Pendiente)
}

/// Si la factura esta entre las filas y, si esta, si alguna de sus filas es de una
/// linea permitida.
fn buscar_factura(filas: &Vec<Venta>, lineas: &Vec<String>, serie: &str, nro: &str) -> (r: Option<
    bool,
>)
    ensures
        r is Some == factura_presente(models::vistas(filas@), serie@, nro@),
        r is Some ==> r->0 == factura_permitida(
            models::vistas(filas@),
            texto::textos(lineas@),
            serie@,
            nro@,
        ),
{
    let ghost vs = models::vistas(filas@);
    let ghost ls = texto::textos(lineas@);
    let mut presente: bool = false;
    let mut i: usize = 0;
    while i < filas.len()
        invariant
            0 <= i <= filas@.len(),
            vs == models::vistas(filas@),
            ls == texto::textos(lineas@),
            presente == exists|k: int| 0 <= k < i && #[trigger] es_factura(vs[k], serie@, nro@),
            forall|k: int|
                0 <= k < i && #[trigger] es_factura(vs[k], serie@, nro@) ==> !config::permitida(
                    ls,
                    vs[k].id_linea,
                ),
        decreases filas@.len() - i,
    {
        let f = &filas[i];
        assert(vs[i as int] == f@);
        if texto::iguales(f.serie_doc.as_str(), serie) && texto::iguales(f.nro_doc.as_str(), nro)
            && f.serie_doc.as_str().unicode_len() > 0 && f.nro_doc.as_str().unicode_len() > 0
            && !es_nc_nd(f.tpo_doc.as_str()) {
            assert(es_factura(vs[i as int], serie@, nro@));
            presente = true;
            if config::linea_en(lineas, f.id_linea.as_str()) {
                return Some(true);
            }
        }
        i = i + 1;
    }
    if presente {
        Some(false)
    } else {
        None
    }
}

fn destino_de(filas: &Vec<Venta>, lineas: &Vec<String>, v: &Venta) -> (r: Destino)
    ensures
        r == destino(models::vistas(filas@), texto::textos(lineas@), v@),
{
    if config::linea_en(lineas, v.id_linea.as_str()) {
        return Destino::Aceptada;
    }
    if !es_nc_nd(v.tpo_doc.as_str()) || v.factura_ref_serie.as_str().unicode_len() == 0
        || v.factura_ref_nro.as_str().unicode_len() == 0 {
        return Destino::Excluida;
    }
    match buscar_factura(
        filas,
        lineas,
        v.factura_ref_serie.as_str(),
        v.factura_ref_nro.as_str(),
    ) {
        Some(ok) => if ok {
            Destino::Aceptada
        } else {
            Destino::Excluida
        },
        None => Destino::Pendiente,
    }
}

proof fn lema_filtro_paso(s: Seq<VentaVista>, pred: spec_fn(VentaVista) -> bool, i: int)
    requires
        0 <= i < s.len(),
    ensures
        s.take(i + 1).filter(pred) == if pred(s[i]) {
            s.take(i).filter(pred).push(s[i])
        } else {
            s.take(i).filter(pred)
        },
{
    reveal(Seq::filter);
    assert(s.take(i + 1).drop_last() =~= s.take(i));
}

/// Reparte las filas de un archivo segun las lineas permitidas.
pub fn clasificar(filas: Vec<Venta>, lineas: &Vec<String>) -> (r: ParseOutput)
    ensures
        models::vistas(r.ventas@) == aceptadas(models::vistas(filas@), texto::textos(lineas@)),
        models::vistas(r.nc_nd_pendientes@) == pendientes(
            models::vistas(filas@),
            texto::textos(lineas@),
        ),
{
    let ghost vs = models::vistas(filas@);
    let ghost ls = texto::textos(lineas@);
    let ghost pa = |v: VentaVista| destino(vs, ls, v) is Aceptada;
    let ghost pp = |v: VentaVista| destino(vs, ls, v) is Pendiente;
    let mut destinos: Vec<Destino> = Vec::new();
    let mut i: usize = 0;
    while i < filas.len()
        invariant
            0 <= i <= filas@.len(),
            vs == models::vistas(filas@),
            ls == texto::textos(lineas@),
            destinos@.len() == i,
            forall|k: int| 0 <= k < i ==> #[trigger] destinos@[k] == destino(vs, ls, vs[k]),
        decreases filas@.len() - i,
    {
        assert(vs[i as int] == filas@[i as int]@);
        destinos.push(destino_de(&filas, lineas, &filas[i]));
        i = i + 1;
    }
    let mut ventas: Vec<Venta> = Vec::new();
    let mut nc_nd_pendientes: Vec<Venta> = Vec::new();
    proof {
        reveal(Seq::filter);
        assert(vs.take(0) =~= Seq::<VentaVista>::empty());
        assert(models::vistas(ventas@) =~= vs.take(0).filter(pa));
        assert(models::vistas(nc_nd_pendientes@) =~= vs.take(0).filter(pp));
    }
    let ghost todas = filas@;
    let total: usize = destinos.len();
    let mut n: usize = 0;
    for v in it: filas
        invariant
            it.seq() == todas,
            n == it.index(),
            total == destinos@.len(),
            vs == models::vistas(todas),
            destinos@.len() == todas.len(),
            pa == (|v: VentaVista| destino(vs, ls, v) is Aceptada),
            pp == (|v: VentaVista| destino(vs, ls, v) is Pendiente),
            forall|k: int|
                0 <= k < todas.len() ==> #[trigger] destinos@[k] == destino(vs, ls, vs[k]),
            models::vistas(ventas@) == vs.take(it.index()).filter(pa),
            models::vistas(nc_nd_pendientes@) == vs.take(it.index()).filter(pp),
    {
        let ghost k = it.index();
        let ghost av = ventas@;
        let ghost ap = nc_nd_pendientes@;
        proof {
            assert(vs[k] == v@);
            lema_filtro_paso(vs, pa, k);
            lema_filtro_paso(vs, pp, k);
        }
        match destinos[n] {
            Destino::Aceptada => {
                ventas.push(v);
                assert(models::vistas(ventas@) =~= models::vistas(av).push(v@));
            },
            Destino::Pendiente => {
                nc_nd_pendientes.push(v);
                assert(models::vistas(nc_nd_pendientes@) =~= models::vistas(ap).push(v@));
            },
            Destino::Excluida => {},
        }
        n = n + 1;
    }
    assert(vs.take(vs.len() as int) =~= vs);
    ParseOutput { ventas, nc_nd_pendientes }
}

/// Lo que se guarda de una exportacion sin mirar la base de datos: las notas cuya
/// factura es de otro mes se dejan fuera.
pub fn parse_export_csv(filas: Vec<Venta>, lineas: &Vec<String>) -> (r: Vec<Venta>)
    ensures
        models::vistas(r@) == aceptadas(models::vistas(filas@), texto::textos(lineas@)),
{
    clasificar(filas, lineas).ventas
}

/// Serie y numero de la factura que hay que buscar para resolver una nota.
pub fn factura_buscada(v: &Venta) -> (r: Option<(String, String)>)
    ensures
        match r {
            Some(p) => v@.factura_ref_serie.len() > 0 && v@.factura_ref_nro.len() > 0 && p.0@
                == v@.factura_ref_serie && p.1@ == v@.factura_ref_nro,
            None => v@.factura_ref_serie.len() == 0 || v@.factura_ref_nro.len() == 0,
        },
{
    if v.factura_ref_serie.as_str().unicode_len() == 0
        || v.factura_ref_nro.as_str().unicode_len() == 0 {
        None
    } else {
        Some((v.factura_ref_serie.clone(), v.factura_ref_nro.clone()))
    }
}

/// Una nota pendiente se resuelve si nombra una factura que en la base tiene
/// alguna fila de linea permitida; `en_base` son las lineas de esas filas.
pub open spec fn resuelta(
    v: VentaVista,
    en_base: Seq<Seq<char>>,
    lineas: Seq<Seq<char>>,
) -> bool {
    &&& v.factura_ref_serie.len() > 0 && v.factura_ref_nro.len() > 0
    &&& exists|i: int| 0 <= i < en_base.len() && config::permitida(lineas, #[trigger] en_base[i])
}

/// Las notas resueltas entre las `n` primeras.
pub open spec fn resueltas(
    pend: Seq<VentaVista>,
    en_base: Seq<Seq<Seq<char>>>,
    lineas: Seq<Seq<char>>,
    n: nat,
) -> Seq<VentaVista>
    decreases n,
{
    if n == 0 {
        seq![]
    } else {
        let previas = resueltas(pend, en_base, lineas, (n - 1) as nat);
        if resuelta(pend[n - 1], en_base[n - 1], lineas) {
            previas.push(pend[n - 1])
        } else {
            previas
        }
    }
}

fn alguna_permitida(en_base: &Vec<String>, lineas: &Vec<String>) -> (r: bool)
    ensures
        r == exists|i: int|
            0 <= i < texto::textos(en_base@).len() && config::permitida(
                texto::textos(lineas@),
                #[trigger] texto::textos(en_base@)[i],
            ),
{
    let ghost bs = texto::textos(en_base@);
    let mut i: usize = 0;
    while i < en_base.len()
        invariant
            0 <= i <= en_base@.len(),
            bs == texto::textos(en_base@),
            forall|k: int|
                0 <= k < i ==> !config::permitida(texto::textos(lineas@), #[trigger] bs[k]),
        decreases en_base@.len() - i,
    {
        assert(bs[i as int] == en_base@[i as int]@);
        if config::linea_en(lineas, en_base[i].as_str()) {
            return true;
        }
        i = i + 1;
    }
    false
}

/// Deja en `pend` las notas que se resuelven, en su orden.
pub fn resolve_nc_nd_cross(
    pend: Vec<Venta>,
    en_base: &Vec<Vec<String>>,
    lineas: &Vec<String>,
) -> (r: Vec<Venta>)
    requires
        en_base@.len() == pend@.len(),
    ensures
        models::vistas(r@) == resueltas(
            models::vistas(pend@),
            tabla::filas_de(en_base@),
            texto::textos(lineas@),
            pend@.len(),
        ),
{
    let ghost todas = pend@;
    let ghost vs = models::vistas(pend@);
    let ghost bs = tabla::filas_de(en_base@);
    let ghost ls = texto::textos(lineas@);
    let total: usize = en_base.len();
    let mut r: Vec<Venta> = Vec::new();
    let mut n: usize = 0;
    assert(models::vistas(r@) =~= Seq::<VentaVista>::empty());
    for v in it: pend
        invariant
            it.seq() == todas,
            n == it.index(),
            total == en_base@.len() == todas.len(),
            vs == models::vistas(todas),
            bs == tabla::filas_de(en_base@),
            ls == texto::textos(lineas@),
            models::vistas(r@) == resueltas(vs, bs, ls, n as nat),
    {
        assert(vs[n as int] == v@);
        assert(bs[n as int] == texto::textos(en_base@[n as int]@));
        let ghost antes = r@;
        if v.factura_ref_serie.as_str().unicode_len() > 0 && v.factura_ref_nro.as_str().unicode_len()
            > 0 && alguna_permitida(&en_base[n], lineas) {
            r.push(v);
            assert(models::vistas(r@) =~= models::vistas(antes).push(v@));
        }
        n = n + 1;
    }
    r
}

/// Lo que se guarda de una exportacion: las filas aceptadas y, detras, las notas
/// que se resuelven con la base de datos.
pub fn parse_export_csv_with_cross(
    output: ParseOutput,
    en_base: &Vec<Vec<String>>,
    lineas: &Vec<String>,
) -> (r: Vec<Venta>)
    requires
        en_base@.len() == output.nc_nd_pendientes@.len(),
    ensures
        models::vistas(r@) == models::vistas(output.ventas@) + resueltas(
            models::vistas(output.nc_nd_pendientes@),
            tabla::filas_de(en_base@),
            texto::textos(lineas@),
            output.nc_nd_pendientes@.len(),
        ),
{
    let mut r = output.ventas;
    let ghost antes = r@;
    let mut mas = resolve_nc_nd_cross(output.nc_nd_pendientes, en_base, lineas);
    let ghost nuevas = mas@;
    r.append(&mut mas);
    assert(models::vistas(r@) =~= models::vistas(antes) + models::vistas(nuevas));
    r
}

// ---------------------------------------------------------------------------
// Formato simple
// ---------------------------------------------------------------------------

/// La venta de una fila del formato simple, sin los campos derivados.
pub open spec fn venta_simple_cruda(
    h: Seq<Seq<char>>,
    fila: Seq<Seq<char>>,
    m: Montos,
    etiqueta: Seq<char>,
    archivo: Seq<char>,
) -> VentaVista {
    let doc = celda(fila, columna(h, "NRO_DOCUMENTO"@));
    VentaVista {
        id_cliente: id_cliente(doc),
        nom_cliente: celda(fila, columna(h, "NOM_CLIENTE"@)),
        nro_doc: doc,
        cantidad: m.cantidad,
        soles: m.soles,
        dolares: m.dolares,
        anho: anho_etiqueta(etiqueta) as i32,
        mes: mes_etiqueta(etiqueta) as i32,
        cod_sucursal: celda(fila, columna(h, "COD_SUCURSAL"@)),
        nom_sucursal: celda(fila, columna(h, "NOM_SUCURSAL"@)),
        ..models::venta_vacia(archivo, etiqueta)
    }
}

/// Una fila del formato simple se lee si tiene documento y no es otra cabecera, y
/// se guarda si ademas tiene cliente.
pub open spec fn util_simple(h: Seq<Seq<char>>, fila: Seq<Seq<char>>) -> bool {
    let doc = celda(fila, columna(h, "NRO_DOCUMENTO"@));
    doc.len() > 0 && doc != "NRO_DOCUMENTO"@ && id_cliente(doc).len() > 0
}

pub open spec fn ventas_simples(
    h: Seq<Seq<char>>,
    filas: Seq<Seq<Seq<char>>>,
    montos: Seq<Montos>,
    etiqueta: Seq<char>,
    archivo: Seq<char>,
    n: nat,
) -> Seq<VentaVista>
    decreases n,
{
    if n == 0 {
        seq![]
    } else {
        let previas = ventas_simples(h, filas, montos, etiqueta, archivo, (n - 1) as nat);
        if util_simple(h, filas[n - 1]) {
            previas.push(
                derivada(
                    venta_simple_cruda(h, filas[n - 1], montos[n - 1], etiqueta, archivo),
                ),
            )
        } else {
            previas
        }
    }
}

/// Los numeros de una fila del formato simple; no tiene base de descuento.
pub open spec fn numerales_simples(h: Seq<Seq<char>>, fila: Seq<Seq<char>>) -> NumeralesVista {
    NumeralesVista {
        cantidad: numeral(
            celda(fila, columna(h, "CANTIDAD"@)),
            es_columna_cantidad("CANTIDAD"@),
        ),
        cantidad_fae: seq![],
        soles: numeral(celda(fila, columna(h, "SOLES"@)), es_columna_cantidad("SOLES"@)),
        dolares: numeral(
            celda(fila, columna(h, "DOLARES"@)),
            es_columna_cantidad("DOLARES"@),
        ),
    }
}

/// Los numeros de cada fila de una tabla en el formato simple.
pub fn numerales_de_simple(t: &Tabla) -> (r: Vec<Numerales>)
    ensures
        numerales_vistas(r@) == Seq::new(
            t@.filas.len(),
            |i: int| numerales_simples(cabecera_util(t@.cabecera), t@.filas[i]),
        ),
{
    proof {
        reveal_strlit("CANTIDAD");
        reveal_strlit("SOLES");
        reveal_strlit("DOLARES");
    }
    let normal = cabecera_normal(&t.cabecera);
    let ghost h = texto::textos(normal@);
    let cantidad = buscar_columna(&normal, "CANTIDAD");
    let soles = buscar_columna(&normal, "SOLES");
    let dolares = buscar_columna(&normal, "DOLARES");
    let mut r: Vec<Numerales> = Vec::new();
    let mut i: usize = 0;
    while i < t.filas.len()
        invariant
            0 <= i <= t.filas@.len(),
            h == cabecera_util(t@.cabecera),
            posicion(cantidad) == columna(h, "CANTIDAD"@),
            posicion(soles) == columna(h, "SOLES"@),
            posicion(dolares) == columna(h, "DOLARES"@),
            r@.len() == i,
            forall|k: int|
                0 <= k < i ==> (#[trigger] r@[k])@ == numerales_simples(h, t@.filas[k]),
        decreases t.filas@.len() - i,
    {
        let fila = &t.filas[i];
        assert(t@.filas[i as int] == texto::textos(fila@));
        let n = Numerales {
            cantidad: numeral_columna(celda_de(fila, cantidad).as_str(), "CANTIDAD"),
            cantidad_fae: String::new(),
            soles: numeral_columna(celda_de(fila, soles).as_str(), "SOLES"),
            dolares: numeral_columna(celda_de(fila, dolares).as_str(), "DOLARES"),
        };
        assert(n@ =~= numerales_simples(h, t@.filas[i as int]));
        r.push(n);
        i = i + 1;
    }
    assert(numerales_vistas(r@) =~= Seq::new(
        t@.filas.len(),
        |i: int| numerales_simples(h, t@.filas[i]),
    ));
    r
}

/// Las ventas de una tabla en el formato simple, con los importes `montos`.
pub fn parse_simple_csv(t: &Tabla, montos: &Vec<Montos>, etiqueta: &str, archivo: &str) -> (r: Vec<
    Venta,
>)
    requires
        montos@.len() == t@.filas.len(),
    ensures
        models::vistas(r@) == ventas_simples(
            cabecera_util(t@.cabecera),
            t@.filas,
            montos@,
            etiqueta@,
            archivo@,
            t@.filas.len(),
        ),
{
    proof {
        reveal_strlit("NRO_DOCUMENTO");
        reveal_strlit("NOM_CLIENTE");
        reveal_strlit("COD_SUCURSAL");
        reveal_strlit("NOM_SUCURSAL");
    }
    let normal = cabecera_normal(&t.cabecera);
    let ghost h = texto::textos(normal@);
    let nro_doc = buscar_columna(&normal, "NRO_DOCUMENTO");
    let nom_cliente = buscar_columna(&normal, "NOM_CLIENTE");
    let cod_sucursal = buscar_columna(&normal, "COD_SUCURSAL");
    let nom_sucursal = buscar_columna(&normal, "NOM_SUCURSAL");
    let mut r: Vec<Venta> = Vec::new();
    let mut i: usize = 0;
    assert(models::vistas(r@) =~= Seq::<VentaVista>::empty());
    while i < t.filas.len()
        invariant
            0 <= i <= t.filas@.len(),
            montos@.len() == t@.filas.len(),
            h == cabecera_util(t@.cabecera),
            posicion(nro_doc) == columna(h, "NRO_DOCUMENTO"@),
            posicion(nom_cliente) == columna(h, "NOM_CLIENTE"@),
            posicion(cod_sucursal) == columna(h, "COD_SUCURSAL"@),
            posicion(nom_sucursal) == columna(h, "NOM_SUCURSAL"@),
            models::vistas(r@) == ventas_simples(
                h,
                t@.filas,
                montos@,
                etiqueta@,
                archivo@,
                i as nat,
            ),
        decreases t.filas@.len() - i,
    {
        let fila = &t.filas[i];
        assert(t@.filas[i as int] == texto::textos(fila@));
        let doc = celda_de(fila, nro_doc);
        if doc.as_str().unicode_len() > 0 && !texto::iguales(doc.as_str(), "NRO_DOCUMENTO") {
            let m = montos[i];
            let mut v = Venta::nuevo(archivo, etiqueta);
            v.id_cliente = normalize_client_id(doc.as_str());
            v.nom_cliente = celda_de(fila, nom_cliente);
            v.nro_doc = doc;
            v.cantidad = m.cantidad;
            v.soles = m.soles;
            v.dolares = m.dolares;
            v.anho = entero_corte(etiqueta, 0, 4);
            v.mes = entero_corte(etiqueta, 5, 7);
            v.cod_sucursal = celda_de(fila, cod_sucursal);
            v.nom_sucursal = celda_de(fila, nom_sucursal);
            assert(v@ =~= venta_simple_cruda(h, texto::textos(fila@), m, etiqueta@, archivo@));
            derivar_campos(&mut v);
            let ghost antes = r@;
            if v.id_cliente.as_str().unicode_len() > 0 {
                r.push(v);
                assert(models::vistas(r@) =~= models::vistas(antes).push(v@));
            }
        }
        i = i + 1;
    }
    r
}

// ---------------------------------------------------------------------------
// Leyes del reparto
// ---------------------------------------------------------------------------

/// Toda fila va a un solo sitio: las que se guardan, las pendientes y las
/// excluidas no se solapan, y guardadas y pendientes salen de las filas leidas.
pub proof fn ley_reparto(filas: Seq<VentaVista>, lineas: Seq<Seq<char>>, v: VentaVista)
    ensures
        aceptadas(filas, lineas).contains(v) <==> filas.contains(v) && destino(
            filas,
            lineas,
            v,
        ) is Aceptada,
        pendientes(filas, lineas).contains(v) <==> filas.contains(v) && destino(
            filas,
            lineas,
            v,
        ) is Pendiente,
        !(aceptadas(filas, lineas).contains(v) && pendientes(filas, lineas).contains(v)),
{
    let pa = |v: VentaVista| destino(filas, lineas, v) is Aceptada;
    let pp = |v: VentaVista| destino(filas, lineas, v) is Pendiente;
    lema_filtro_contiene(filas, pa, v);
    lema_filtro_contiene(filas, pp, v);
}

proof fn lema_filtro_contiene(s: Seq<VentaVista>, pred: spec_fn(VentaVista) -> bool, v: VentaVista)
    ensures
        s.filter(pred).contains(v) <==> s.contains(v) && pred(v),
    decreases s.len(),
{
    reveal(Seq::filter);
    if s.len() > 0 {
        let p = s.drop_last();
        lema_filtro_contiene(p, pred, v);
        if p.contains(v) {
            let i = choose|i: int| 0 <= i < p.len() && p[i] == v;
            assert(s[i] == v);
        }
        if s.contains(v) && v != s.last() {
            let i = choose|i: int| 0 <= i < s.len() && s[i] == v;
            assert(p[i] == v);
        }
        assert(s.last() == s[s.len() - 1]);
        let f = p.filter(pred);
        if pred(s.last()) {
            let g = f.push(s.last());
            assert(g.last() == s.last());
            if f.contains(v) {
                let i = choose|i: int| 0 <= i < f.len() && f[i] == v;
                assert(g[i] == v);
            }
            if g.contains(v) && v != s.last() {
                let i = choose|i: int| 0 <= i < g.len() && g[i] == v;
                assert(f[i] == v);
            }
            if v == s.last() {
                assert(g[g.len() - 1] == v);
            }
        }
    }
}

/// Lo que se guarda es de una linea permitida o es una nota que corrige una factura del
/// archivo con alguna fila de linea permitida.
pub proof fn ley_guardada_permitida_o_nota(
    filas: Seq<VentaVista>,
    lineas: Seq<Seq<char>>,
    v: VentaVista,
)
    requires
        aceptadas(filas, lineas).contains(v),
    ensures
        config::permitida(lineas, v.id_linea) || (nota(v.tpo_doc) && factura_permitida(
            filas,
            lineas,
            v.factura_ref_serie,
            v.factura_ref_nro,
        )),
{
    ley_reparto(filas, lineas, v);
}

/// Toda venta que se lee de una exportacion tiene articulo y cliente.
pub proof fn ley_ventas_con_articulo_y_cliente(
    h: Seq<Seq<char>>,
    filas: Seq<Seq<Seq<char>>>,
    montos: Seq<Montos>,
    etiqueta: Seq<char>,
    archivo: Seq<char>,
    n: nat,
)
    ensures
        forall|i: int|
            0 <= i < ventas_utiles(h, filas, montos, etiqueta, archivo, n).len() ==> util(
                #[trigger] ventas_utiles(h, filas, montos, etiqueta, archivo, n)[i],
            ),
    decreases n,
{
    if n > 0 {
        ley_ventas_con_articulo_y_cliente(h, filas, montos, etiqueta, archivo, (n - 1) as nat);
        let previas = ventas_utiles(h, filas, montos, etiqueta, archivo, (n - 1) as nat);
        let todas = ventas_utiles(h, filas, montos, etiqueta, archivo, n);
        assert forall|i: int| 0 <= i < todas.len() implies util(#[trigger] todas[i]) by {
            if i < previas.len() {
                assert(todas[i] == previas[i]);
            }
        }
    }
}

/// Ampliar las lineas permitidas no hace perder ninguna fila aceptada.
pub proof fn ley_mas_lineas(
    filas: Seq<VentaVista>,
    lineas: Seq<Seq<char>>,
    otras: Seq<Seq<char>>,
    v: VentaVista,
)
    requires
        forall|l: Seq<char>| lineas.contains(l) ==> #[trigger] otras.contains(l),
        aceptadas(filas, lineas).contains(v),
    ensures
        aceptadas(filas, otras).contains(v),
{
    ley_reparto(filas, lineas, v);
    ley_reparto(filas, otras, v);
    let serie = v.factura_ref_serie;
    let nro = v.factura_ref_nro;
    if !config::permitida(lineas, v.id_linea) {
        let i = choose|i: int|
            0 <= i < filas.len() && #[trigger] es_factura(filas[i], serie, nro)
                && config::permitida(lineas, filas[i].id_linea);
        assert(es_factura(filas[i], serie, nro) && config::permitida(otras, filas[i].id_linea));
        assert(factura_permitida(filas, otras, serie, nro));
    }
}

/// Un codigo que no lleva blancos en los extremos, marca de orden de bytes ni `.0`, y
/// que no es una de las palabras con que se escribe que no hay dato, se queda como
/// esta: los ceros a la izquierda se conservan.
pub proof fn ley_id_intacto(s: Seq<char>)
    requires
        texto::recortado(s) == s,
        forall|i: int| 0 <= i < s.len() ==> #[trigger] s[i] != '\u{feff}',
        !es_nulo(s),
        !texto::termina(s, seq!['.', '0']),
    ensures
        id_limpio(s) == s,
{
    texto::lema_reemplazo_nulo(s, '\u{feff}', seq![]);
    if s.len() == 0 {
        assert(s =~= Seq::<char>::empty());
    }
}

/// Una celda limpia no lleva vocales con tilde ni enes con virgulilla.
pub proof fn ley_limpio_sin_tildes(s: Seq<char>, i: int)
    requires
        0 <= i < limpio(s).len(),
    ensures
        sin_tilde(limpio(s)[i]) == limpio(s)[i],
{
}

/// El numero de una celda se escribe sin comas.
pub proof fn ley_numeral_sin_comas(celda: Seq<char>, es_cantidad: bool)
    ensures
        !numeral(celda, es_cantidad).contains(','),
{
    let s = texto::recortado(celda);
    texto::lema_reemplazo_quita(s, ',', seq![]);
    texto::lema_reemplazo_quita(s, ',', seq!['.']);
    texto::lema_reemplazo_quita(texto::reemplazado(s, seq!['.'], seq![]), ',', seq!['.']);
    if texto::indice(s, seq![','], 0) is None {
        texto::lema_indice(s, seq![','], 0);
        assert forall|k: int| 0 <= k < s.len() implies #[trigger] s[k] != ',' by {
            if s[k] == ',' {
                assert(s.subrange(k, k + 1) =~= seq![',']);
                assert(texto::aparece(s, seq![','], k));
            }
        }
        lema_sin_car(s, '.', ',');
    }
}

/// Quitar un caracter no hace aparecer otro.
proof fn lema_sin_car(s: Seq<char>, p: char, c: char)
    requires
        forall|k: int| 0 <= k < s.len() ==> #[trigger] s[k] != c,
    ensures
        !texto::reemplazado(s, seq![p], seq![]).contains(c),
    decreases s.len(),
{
    if s.len() > 0 {
        let t = s.drop_first();
        assert forall|k: int| 0 <= k < t.len() implies #[trigger] t[k] != c by {
            assert(t[k] == s[k + 1]);
        }
        lema_sin_car(t, p, c);
        texto::lema_reemplazo_paso(s, p, seq![]);
        let r = texto::reemplazado(t, seq![p], seq![]);
        if s[0] != p {
            let w = seq![s[0]] + r;
            assert forall|k: int| 0 <= k < w.len() implies #[trigger] w[k] != c by {
                if k > 0 {
                    assert(w[k] == r[k - 1]);
                }
            }
        } else {
            assert(Seq::<char>::empty() + r =~= r);
        }
    }
}

/// Todas las ventas de un archivo llevan su etiqueta y su nombre.
pub proof fn ley_misma_etiqueta(
    h: Seq<Seq<char>>,
    filas: Seq<Seq<Seq<char>>>,
    montos: Seq<Montos>,
    etiqueta: Seq<char>,
    archivo: Seq<char>,
    n: nat,
)
    ensures
        forall|i: int|
            0 <= i < ventas_utiles(h, filas, montos, etiqueta, archivo, n).len() ==> (
            #[trigger] ventas_utiles(h, filas, montos, etiqueta, archivo, n)[i]).mes_ref
                == etiqueta && ventas_utiles(
                h,
                filas,
                montos,
                etiqueta,
                archivo,
                n,
            )[i].file_source == archivo,
    decreases n,
{
    if n > 0 {
        ley_misma_etiqueta(h, filas, montos, etiqueta, archivo, (n - 1) as nat);
        let previas = ventas_utiles(h, filas, montos, etiqueta, archivo, (n - 1) as nat);
        let todas = ventas_utiles(h, filas, montos, etiqueta, archivo, n);
        assert forall|i: int| 0 <= i < todas.len() implies (#[trigger] todas[i]).mes_ref == etiqueta
            && todas[i].file_source == archivo by {
            if i < previas.len() {
                assert(todas[i] == previas[i]);
            }
        }
    }
}

// ---------------------------------------------------------------------------
// Leyes de las celdas
// ---------------------------------------------------------------------------

/// Quitar la tilde deja la misma letra sin ella; lo demas no cambia.
pub proof fn ley_sin_tilde(c: char)
    ensures
        (c as u32) < 0x80 ==> sin_tilde(c) == c,
        sin_tilde(c) != c ==> (sin_tilde(c) as u32) < 0x80,
        sin_tilde(sin_tilde(c)) == sin_tilde(c),
        sin_tilde('\u{00E1}') == 'a' && sin_tilde('\u{00C1}') == 'A',
        sin_tilde('\u{00E9}') == 'e' && sin_tilde('\u{00C9}') == 'E',
        sin_tilde('\u{00ED}') == 'i' && sin_tilde('\u{00CD}') == 'I',
        sin_tilde('\u{00F3}') == 'o' && sin_tilde('\u{00D3}') == 'O',
        sin_tilde('\u{00FA}') == 'u' && sin_tilde('\u{00DA}') == 'U',
        sin_tilde('\u{00F1}') == 'n' && sin_tilde('\u{00D1}') == 'N',
        c as u32 > 0xFF ==> sin_tilde(c) == c,
{
}

/// El texto con cada letra sin tilde.
pub open spec fn letras_sin_tilde(s: Seq<char>) -> Seq<char> {
    Seq::new(s.len(), |i: int| sin_tilde(s[i]))
}

/// Un texto sin blancos en los extremos, sin dos espacios seguidos y sin espacios duros.
pub open spec fn apretado(s: Seq<char>) -> bool {
    &&& texto::sin_bordes_blancos(s)
    &&& forall|i: int| 0 <= i < s.len() ==> #[trigger] s[i] != '\u{00A0}'
    &&& forall|i: int| 0 <= i < s.len() - 1 ==> !(#[trigger] s[i] == ' ' && s[i + 1] == ' ')
}

/// Una celda apretada queda entera al limpiarla, con las letras sin tilde y nada mas, tenga
/// los blancos que tenga alrededor y sea cual sea su largo.
pub proof fn ley_celda_limpia(a: Seq<char>, s: Seq<char>, b: Seq<char>)
    requires
        texto::todo_blanco(a),
        texto::todo_blanco(b),
        apretado(s),
    ensures
        limpio(a + s + b) == letras_sin_tilde(s),
        limpio(s) == letras_sin_tilde(s),
{
    texto::ley_recorte(a, s, b);
    texto::lema_reemplazo_nulo(s, '\u{00A0}', " "@);
    reveal_strlit("  ");
    lema_sin_dobles(s);
    texto::ley_reemplazo(s, "  "@, " "@);
    assert(s.map_values(|c: char| sin_tilde(c)) =~= letras_sin_tilde(s));
}

proof fn lema_sin_dobles(s: Seq<char>)
    requires
        forall|i: int| 0 <= i < s.len() - 1 ==> !(#[trigger] s[i] == ' ' && s[i + 1] == ' '),
    ensures
        texto::indice(s, "  "@, 0) is None,
{
    reveal_strlit("  ");
    texto::lema_indice(s, "  "@, 0);
    if let Some(i) = texto::indice(s, "  "@, 0) {
        let t = s.subrange(i, i + 2);
        assert(t[0] == ' ' && t[1] == ' ');
        assert(s[i] == ' ' && s[i + 1] == ' ');
    }
}

/// Dos espacios seguidos, o un espacio duro, entre dos textos apretados quedan en uno solo.
pub proof fn ley_espacios_de_mas(a: Seq<char>, b: Seq<char>)
    requires
        apretado(a),
        apretado(b),
        a.len() > 0,
        b.len() > 0,
    ensures
        limpio(a + seq![' ', ' '] + b) == letras_sin_tilde(a) + seq![' '] + letras_sin_tilde(b),
        limpio(a + seq!['\u{00A0}'] + b) == letras_sin_tilde(a) + seq![' '] + letras_sin_tilde(b),
{
    let uno = a + seq![' '] + b;
    lema_apretado_unido(a, b);
    lema_espacio_duro(a, b);
    lema_dos_espacios(a, b);
    assert(letras_sin_tilde(uno) =~= letras_sin_tilde(a) + seq![' '] + letras_sin_tilde(b));
}

proof fn lema_apretado_unido(a: Seq<char>, b: Seq<char>)
    requires
        apretado(a),
        apretado(b),
        a.len() > 0,
        b.len() > 0,
    ensures
        apretado(a + seq![' '] + b),
{
    let uno = a + seq![' '] + b;
    let n = a.len() as int;
    assert(a.last() == a[n - 1]);
    assert(uno[0] == a[0]);
    assert(uno.last() == b.last());
    assert forall|i: int| 0 <= i < uno.len() implies #[trigger] uno[i] != '\u{00A0}' by {
        if i < n {
            assert(uno[i] == a[i]);
        } else if i > n {
            assert(uno[i] == b[i - n - 1]);
        }
    }
    assert forall|i: int| 0 <= i < uno.len() - 1 implies !(#[trigger] uno[i] == ' ' && uno[i + 1]
        == ' ') by {
        if i + 1 < n {
            assert(uno[i] == a[i] && uno[i + 1] == a[i + 1]);
        } else if i + 1 == n {
            assert(uno[i] == a[i]);
        } else if i == n {
            assert(uno[i + 1] == b[0]);
        } else {
            assert(uno[i] == b[i - n - 1] && uno[i + 1] == b[i - n]);
        }
    }
}

proof fn lema_espacio_duro(a: Seq<char>, b: Seq<char>)
    requires
        apretado(a),
        apretado(b),
        a.len() > 0,
        b.len() > 0,
    ensures
        limpio(a + seq!['\u{00A0}'] + b) == letras_sin_tilde(a + seq![' '] + b),
{
    reveal_strlit("  ");
    reveal_strlit(" ");
    let nada = Seq::<char>::empty();
    let uno = a + seq![' '] + b;
    let duro = a + seq!['\u{00A0}'] + b;
    lema_apretado_unido(a, b);
    assert(duro[0] == a[0] && duro.last() == b.last());
    texto::ley_recorte(nada, duro, nada);
    lema_cambio_unico(a, '\u{00A0}', b, " "@);
    assert(a + " "@ + b =~= uno);
    lema_sin_dobles(uno);
    texto::ley_reemplazo(uno, "  "@, " "@);
    assert(uno.map_values(|c: char| sin_tilde(c)) =~= letras_sin_tilde(uno));
}

proof fn lema_dos_espacios(a: Seq<char>, b: Seq<char>)
    requires
        apretado(a),
        apretado(b),
        a.len() > 0,
        b.len() > 0,
    ensures
        limpio(a + seq![' ', ' '] + b) == letras_sin_tilde(a + seq![' '] + b),
{
    reveal_strlit("  ");
    reveal_strlit(" ");
    let nada = Seq::<char>::empty();
    let uno = a + seq![' '] + b;
    let dos = a + seq![' ', ' '] + b;
    let n = a.len() as int;
    assert(dos[0] == a[0] && dos.last() == b.last());
    texto::ley_recorte(nada, dos, nada);
    assert forall|i: int| 0 <= i < dos.len() implies #[trigger] dos[i] != '\u{00A0}' by {
        if i < n {
            assert(dos[i] == a[i]);
        } else if i >= n + 2 {
            assert(dos[i] == b[i - n - 2]);
        }
    }
    texto::lema_reemplazo_nulo(dos, '\u{00A0}', " "@);
    lema_primer_doble(a, b);
    texto::ley_reemplazo(dos, "  "@, " "@);
    assert(dos.take(n) =~= a);
    assert(dos.skip(n + 2) =~= b);
    lema_sin_dobles(b);
    texto::ley_reemplazo(b, "  "@, " "@);
    assert(a + " "@ + b =~= uno);
    assert(uno.map_values(|c: char| sin_tilde(c)) =~= letras_sin_tilde(uno));
}

proof fn lema_primer_doble(a: Seq<char>, b: Seq<char>)
    requires
        apretado(a),
        a.len() > 0,
    ensures
        texto::indice(a + seq![' ', ' '] + b, "  "@, 0) == Some(a.len() as int),
{
    reveal_strlit("  ");
    let dos = a + seq![' ', ' '] + b;
    let n = a.len() as int;
    assert(a.last() == a[n - 1]);
    assert(dos.subrange(n, n + 2) =~= "  "@);
    assert forall|i: int| 0 <= i < n implies !texto::aparece(dos, "  "@, i) by {
        if texto::aparece(dos, "  "@, i) {
            let t = dos.subrange(i, i + 2);
            assert(t[0] == ' ' && t[1] == ' ');
            assert(dos[i] == a[i]);
            if i + 1 < n {
                assert(dos[i + 1] == a[i + 1]);
            }
        }
    }
    texto::ley_primera_aparicion(dos, "  "@, 0, n);
}

/// Un caracter que solo esta una vez se cambia ahi.
proof fn lema_cambio_unico(a: Seq<char>, c: char, b: Seq<char>, r: Seq<char>)
    requires
        forall|i: int| 0 <= i < a.len() ==> #[trigger] a[i] != c,
        forall|i: int| 0 <= i < b.len() ==> #[trigger] b[i] != c,
    ensures
        texto::reemplazado(a + seq![c] + b, seq![c], r) == a + r + b,
    decreases a.len(),
{
    let s = a + seq![c] + b;
    texto::lema_reemplazo_paso(s, c, r);
    if a.len() == 0 {
        assert(s.drop_first() =~= b);
        texto::lema_reemplazo_nulo(b, c, r);
        assert(r + b =~= a + r + b);
    } else {
        let t = a.drop_first();
        assert(s.drop_first() =~= t + seq![c] + b);
        assert forall|i: int| 0 <= i < t.len() implies #[trigger] t[i] != c by {
            assert(t[i] == a[i + 1]);
        }
        lema_cambio_unico(t, c, b, r);
        assert(s[0] == a[0]);
        assert(seq![s[0]] + (t + r + b) =~= a + r + b);
    }
}

/// Un codigo escrito con un `.0` detras es el mismo sin el; si lo que hay es una de las cuatro
/// palabras con que se dice que no hay dato, queda vacio, y si no, no pierde nada.
pub proof fn ley_codigo(s: Seq<char>)
    requires
        s.len() > 0,
        texto::sin_bordes_blancos(s),
        forall|i: int| 0 <= i < s.len() ==> #[trigger] s[i] != '\u{feff}',
        !texto::termina(s, seq!['.', '0']),
    ensures
        ({
            let m = texto::minusculas(s);
            let vacio = m == "nan"@ || m == "none"@ || m == "null"@ || m == "<na>"@;
            &&& vacio ==> id_limpio(s).len() == 0
            &&& !vacio ==> id_limpio(s) == s
        }),
        ({
            let t = s + seq!['.', '0'];
            let m = texto::minusculas(t);
            !(m == "nan"@ || m == "none"@ || m == "null"@ || m == "<na>"@) ==> id_limpio(t) == s
        }),
{
    let nada = Seq::<char>::empty();
    texto::ley_recorte(nada, s, nada);
    texto::lema_reemplazo_nulo(s, '\u{feff}', seq![]);
    let t = s + seq!['.', '0'];
    assert(t[0] == s[0]);
    assert(t.last() == '0');
    texto::ley_recorte(nada, t, nada);
    assert forall|i: int| 0 <= i < t.len() implies #[trigger] t[i] != '\u{feff}' by {
        if i < s.len() {
            assert(t[i] == s[i]);
        }
    }
    texto::lema_reemplazo_nulo(t, '\u{feff}', seq![]);
    assert(t.subrange(t.len() - 2, t.len() as int) =~= seq!['.', '0']);
    assert(texto::termina(t, seq!['.', '0']));
    assert(t.take(t.len() - 2) =~= s);
    reveal_with_fuel(sin_punto_cero, 3);
}

/// Un codigo de cliente de ocho bytes o menos se completa con ceros delante hasta ocho
/// caracteres, y uno mayor hasta once; nunca pierde ninguno de los suyos.
pub proof fn ley_codigo_cliente(s: Seq<char>)
    ensures
        ({
            let t = id_limpio(s);
            let r = id_cliente(s);
            &&& t.len() == 0 <==> r.len() == 0
            &&& t.len() > 0 ==> r.len() >= t.len() && r.skip(r.len() - t.len()) == t
            &&& t.len() > 0 ==> forall|i: int| 0 <= i < r.len() - t.len() ==> #[trigger] r[i] == '0'
            &&& t.len() > 0 && texto::bytes_de(t) <= 8 ==> r.len() == 8
            &&& texto::bytes_de(t) > 8 && t.len() <= 11 ==> r.len() == 11
            &&& t.len() > 11 ==> r == t
        }),
{
    let t = id_limpio(s);
    texto::ley_relleno(t, 8, '0');
    texto::ley_relleno(t, 11, '0');
    texto::lema_bytes_cotas(t);
}

// ---------------------------------------------------------------------------
// Leyes de los numeros
// ---------------------------------------------------------------------------

/// El texto sin puntos ni comas.
pub open spec fn sin_signos(s: Seq<char>) -> Seq<char>
    decreases s.len(),
{
    if s.len() == 0 {
        seq![]
    } else if s[0] == '.' || s[0] == ',' {
        sin_signos(s.drop_first())
    } else {
        seq![s[0]] + sin_signos(s.drop_first())
    }
}

proof fn lema_signos_suma(a: Seq<char>, b: Seq<char>)
    ensures
        sin_signos(a + b) == sin_signos(a) + sin_signos(b),
    decreases a.len(),
{
    if a.len() == 0 {
        assert(a + b =~= b);
        assert(sin_signos(a) + sin_signos(b) =~= sin_signos(b));
    } else {
        assert((a + b).drop_first() =~= a.drop_first() + b);
        lema_signos_suma(a.drop_first(), b);
        assert(seq![a[0]] + (sin_signos(a.drop_first()) + sin_signos(b)) =~= seq![a[0]]
            + sin_signos(a.drop_first()) + sin_signos(b));
    }
}

proof fn lema_signos_cambio(s: Seq<char>, p: char, r: Seq<char>)
    requires
        p == '.' || p == ',',
        sin_signos(r).len() == 0,
    ensures
        sin_signos(texto::reemplazado(s, seq![p], r)) == sin_signos(s),
    decreases s.len(),
{
    if s.len() > 0 {
        texto::lema_reemplazo_paso(s, p, r);
        lema_signos_cambio(s.drop_first(), p, r);
        let resto = texto::reemplazado(s.drop_first(), seq![p], r);
        let uno = seq![s[0]];
        lema_signos_suma(r, resto);
        lema_signos_suma(uno, resto);
        assert(uno.drop_first() =~= Seq::<char>::empty());
        assert(sin_signos(uno) == if s[0] == '.' || s[0] == ',' {
            sin_signos(uno.drop_first())
        } else {
            uno + sin_signos(uno.drop_first())
        });
        assert(sin_signos(r) =~= Seq::<char>::empty());
        assert(Seq::<char>::empty() + sin_signos(resto) =~= sin_signos(resto));
        assert(uno + Seq::<char>::empty() =~= uno);
    }
}

/// Preparar un numero solo toca sus puntos y sus comas: las cifras y el signo quedan todos y
/// en su orden.
pub proof fn ley_cifras_intactas(celda: Seq<char>, es_cantidad: bool)
    ensures
        sin_signos(numeral(celda, es_cantidad)) == sin_signos(texto::recortado(celda)),
{
    let s = texto::recortado(celda);
    let punto = seq!['.'];
    assert(punto.drop_first() =~= Seq::<char>::empty());
    assert(sin_signos(punto) == sin_signos(punto.drop_first()));
    lema_signos_cambio(s, ',', seq![]);
    lema_signos_cambio(s, ',', punto);
    lema_signos_cambio(s, '.', seq![]);
    lema_signos_cambio(texto::reemplazado(s, seq!['.'], seq![]), ',', punto);
}

/// Ni puntos ni comas.
pub open spec fn sin_puntuar(s: Seq<char>) -> bool {
    forall|i: int| 0 <= i < s.len() ==> #[trigger] s[i] != '.' && s[i] != ','
}

/// Como se lee cada forma de escribir un numero. Una cantidad pierde la coma y guarda el
/// punto. Un importe con punto y coma los tiene de miles y decimal; con solo una coma es de
/// miles si le siguen tres bytes o mas, y decimal si no; con solo un punto es de miles si le
/// siguen tres ceros y decimal si no.
pub proof fn ley_formas_de_numero(a: Seq<char>, b: Seq<char>, c: Seq<char>)
    requires
        sin_puntuar(a),
        sin_puntuar(b),
        sin_puntuar(c),
        a.len() > 0 && !texto::es_blanco(a[0]),
        b.len() > 0 && !texto::es_blanco(b.last()),
        c.len() > 0 && !texto::es_blanco(c.last()),
    ensures
        numeral(a + seq![','] + b, true) == a + b,
        numeral(a + seq!['.'] + b, true) == a + seq!['.'] + b,
        numeral(a + seq!['.'] + b + seq![','] + c, false) == a + b + seq!['.'] + c,
        numeral(a + seq![','] + b, false) == (if texto::bytes_de(b) >= 3 {
            a + b
        } else {
            a + seq!['.'] + b
        }),
        numeral(a + seq!['.'] + b, false) == (if b == seq!['0', '0', '0'] {
            a + b
        } else {
            a + seq!['.'] + b
        }),
        texto::sin_bordes_blancos(a) ==> numeral(a, false) == a && numeral(a, true) == a,
{
    let nada = Seq::<char>::empty();
    reveal_strlit("000");
    assert("000"@ =~= seq!['0', '0', '0']);
    // Con una coma.
    let x = a + seq![','] + b;
    assert(x[0] == a[0] && x.last() == b.last());
    texto::ley_recorte(nada, x, nada);
    lema_cambio_unico(a, ',', b, nada);
    lema_cambio_unico(a, ',', b, seq!['.']);
    assert(a + nada + b =~= a + b);
    lema_donde(a, ',', b);
    lema_no_esta(x, '.');
    assert(x.skip(a.len() as int + 1) =~= b);
    // Con un punto.
    let y = a + seq!['.'] + b;
    assert(y[0] == a[0] && y.last() == b.last());
    texto::ley_recorte(nada, y, nada);
    lema_cambio_unico(a, '.', b, nada);
    lema_donde(a, '.', b);
    lema_no_esta(y, ',');
    texto::lema_reemplazo_nulo(y, ',', nada);
    assert(y.skip(a.len() as int + 1) =~= b);
    // Con los dos.
    let z = a + seq!['.'] + b + seq![','] + c;
    assert(z[0] == a[0] && z.last() == c.last());
    texto::ley_recorte(nada, z, nada);
    let cola = b + seq![','] + c;
    assert(z =~= a + seq!['.'] + cola);
    assert forall|i: int| 0 <= i < cola.len() implies #[trigger] cola[i] != '.' by {
        if i < b.len() {
            assert(cola[i] == b[i]);
        } else if i > b.len() {
            assert(cola[i] == c[i - b.len() - 1]);
        }
    }
    lema_cambio_unico(a, '.', cola, nada);
    lema_donde(a, '.', cola);
    let ab = a + b;
    assert(a + nada + cola =~= ab + seq![','] + c);
    assert forall|i: int| 0 <= i < ab.len() implies #[trigger] ab[i] != ',' by {
        if i < a.len() {
            assert(ab[i] == a[i]);
        } else {
            assert(ab[i] == b[i - a.len()]);
        }
    }
    lema_cambio_unico(ab, ',', c, seq!['.']);
    texto::lema_indice(z, seq![','], 0);
    let antes = a + seq!['.'] + b;
    assert(z =~= antes + seq![','] + c);
    assert(z.subrange(antes.len() as int, antes.len() as int + 1) =~= seq![',']);
    assert(texto::aparece(z, seq![','], antes.len() as int));
    assert(texto::indice(z, seq![','], 0) is Some);
    // Sin ninguno.
    if texto::sin_bordes_blancos(a) {
        texto::ley_recorte(nada, a, nada);
        lema_no_esta(a, ',');
        lema_no_esta(a, '.');
        texto::lema_reemplazo_nulo(a, ',', nada);
    }
}

/// El primero de un caracter que no esta delante.
proof fn lema_donde(a: Seq<char>, c: char, b: Seq<char>)
    requires
        forall|i: int| 0 <= i < a.len() ==> #[trigger] a[i] != c,
    ensures
        texto::indice(a + seq![c] + b, seq![c], 0) == Some(a.len() as int),
{
    let s = a + seq![c] + b;
    texto::lema_indice(s, seq![c], 0);
    assert(s.subrange(a.len() as int, a.len() as int + 1) =~= seq![c]);
    assert(texto::aparece(s, seq![c], a.len() as int));
    let i = texto::indice(s, seq![c], 0)->0;
    if i < a.len() {
        assert(s.subrange(i, i + 1)[0] == c);
        assert(s[i] == a[i]);
    }
}

proof fn lema_no_esta(s: Seq<char>, c: char)
    requires
        forall|i: int| 0 <= i < s.len() ==> #[trigger] s[i] != c,
    ensures
        texto::indice(s, seq![c], 0) is None,
{
    texto::lema_indice(s, seq![c], 0);
    if let Some(i) = texto::indice(s, seq![c], 0) {
        assert(s.subrange(i, i + 1)[0] == c);
        assert(s[i] == c);
    }
}

/// Es de cantidades una columna titulada asi, salvo que nombre un precio.
pub proof fn ley_columna_cantidad(col: Seq<char>)
    ensures
        ({
            let up = texto::mayusculas(texto::recortado(col));
            &&& texto::contiene(up, "PRECIO"@) ==> !es_columna_cantidad(col)
            &&& up == "CANTIDAD"@ || up == "CANTIDAD FAE"@ ==> es_columna_cantidad(col)
            &&& texto::contiene(up, "UNIDADES"@) && !texto::contiene(up, "PRECIO"@)
                ==> es_columna_cantidad(col)
            &&& es_columna_cantidad(col) ==> up == "CANTIDAD"@ || up == "CANTIDAD FAE"@
                || texto::contiene(up, "UNIDADES"@)
        }),
{
    reveal_strlit("CANTIDAD");
    reveal_strlit("CANTIDAD FAE");
    reveal_strlit("PRECIO");
    let up = texto::mayusculas(texto::recortado(col));
    let p = "PRECIO"@;
    if up == "CANTIDAD"@ || up == "CANTIDAD FAE"@ {
        if texto::contiene(up, p) {
            let i = choose|i: int| texto::aparece(up, p, i);
            assert(up.subrange(i, i + 6)[0] == 'P');
            assert(up[i] == 'P');
        }
    }
}

/// El precio unitario se calcula con la cantidad del documento, salvo que sea cero, y con la
/// base del descuento si lo es; si las dos son cero no hay con que.
pub proof fn ley_base_precio(cantidad: Monto, fae: Monto)
    ensures
        cantidad.0 != 0 && cantidad.0 != 0x8000_0000_0000_0000 ==> base_de(cantidad, fae) == Some(
            cantidad,
        ),
        (cantidad.0 == 0 || cantidad.0 == 0x8000_0000_0000_0000) && fae.0 != 0 && fae.0
            != 0x8000_0000_0000_0000 ==> base_de(cantidad, fae) == Some(fae),
        base_de(cantidad, fae) matches Some(b) ==> b.0 != 0 && b.0 != 0x8000_0000_0000_0000 && (b
            == cantidad || b == fae),
{
}

// ---------------------------------------------------------------------------
// Leyes de las ventas
// ---------------------------------------------------------------------------

/// `i` es la primera columna cuyo titulo contiene `nombre`.
pub open spec fn primera_con(h: Seq<Seq<char>>, nombre: Seq<char>, i: int) -> bool {
    &&& 0 <= i < h.len()
    &&& texto::contiene(h[i], nombre)
    &&& forall|j: int| 0 <= j < i ==> !texto::contiene(#[trigger] h[j], nombre)
}

proof fn lema_columna_desde(h: Seq<Seq<char>>, nombre: Seq<char>, desde: int)
    requires
        0 <= desde <= h.len(),
        forall|j: int| 0 <= j < desde ==> !texto::contiene(#[trigger] h[j], nombre),
    ensures
        match columna_desde(h, nombre, desde) {
            Some(i) => primera_con(h, nombre, i),
            None => forall|j: int| 0 <= j < h.len() ==> !texto::contiene(#[trigger] h[j], nombre),
        },
    decreases h.len() - desde,
{
    if desde < h.len() && !texto::contiene(h[desde], nombre) {
        lema_columna_desde(h, nombre, desde + 1);
    }
}

/// Cada dato se busca en la primera columna que lo nombra, y si ninguna lo nombra, no hay. El
/// importe en soles se busca en `TOTAL` solo si ninguna dice `SOLES`.
pub proof fn ley_columna(h: Seq<Seq<char>>, nombre: Seq<char>)
    ensures
        match columna(h, nombre) {
            Some(i) => primera_con(h, nombre, i),
            None => forall|j: int| 0 <= j < h.len() ==> !texto::contiene(#[trigger] h[j], nombre),
        },
        match columna_soles(h) {
            Some(i) => primera_con(h, "SOLES"@, i) || (primera_con(h, "TOTAL"@, i) && forall|j: int|
                0 <= j < h.len() ==> !texto::contiene(#[trigger] h[j], "SOLES"@)),
            None => forall|j: int|
                0 <= j < h.len() ==> !texto::contiene(#[trigger] h[j], "SOLES"@)
                    && !texto::contiene(h[j], "TOTAL"@),
        },
{
    lema_columna_desde(h, nombre, 0);
    lema_columna_desde(h, "SOLES"@, 0);
    lema_columna_desde(h, "TOTAL"@, 0);
}

/// `x` es lo que hay, limpio, en la primera columna de la fila titulada `nombre`; vacio si no
/// hay tal columna o la fila no llega a ella.
pub open spec fn es_dato(
    h: Seq<Seq<char>>,
    fila: Seq<Seq<char>>,
    nombre: Seq<char>,
    x: Seq<char>,
) -> bool {
    &&& forall|i: int| #[trigger]
        primera_con(h, nombre, i) && i < fila.len() ==> x == limpio(fila[i])
    &&& forall|i: int| #[trigger] primera_con(h, nombre, i) && i >= fila.len() ==> x.len() == 0
    &&& (forall|j: int| 0 <= j < h.len() ==> !texto::contiene(#[trigger] h[j], nombre)) ==> x.len()
        == 0
}

proof fn lema_es_dato(h: Seq<Seq<char>>, fila: Seq<Seq<char>>, nombre: Seq<char>)
    ensures
        es_dato(h, fila, nombre, celda(fila, columna(h, nombre))),
{
    ley_columna(h, nombre);
    let nada = Seq::<char>::empty();
    ley_celda_limpia(nada, nada, nada);
    assert(letras_sin_tilde(nada) =~= nada);
    assert forall|i: int| #[trigger] primera_con(h, nombre, i) implies columna(h, nombre) == Some(
        i,
    ) by {
        let k = columna(h, nombre)->0;
        if columna(h, nombre) is Some {
            if k < i {
                assert(!texto::contiene(h[k], nombre));
            } else if i < k {
                assert(!texto::contiene(h[i], nombre));
            }
        } else {
            assert(!texto::contiene(h[i], nombre));
        }
    }
}

/// Cada texto de una venta es el de su columna: nombres, codigos de clasificacion, sucursal,
/// vendedor y pedido, tal cual una vez limpios.
pub proof fn ley_textos_de_venta(
    h: Seq<Seq<char>>,
    fila: Seq<Seq<char>>,
    m: Montos,
    etiqueta: Seq<char>,
    archivo: Seq<char>,
)
    ensures
        ({
            let v = venta_fila(h, fila, m, etiqueta, archivo);
            &&& es_dato(h, fila, "ID_ARTICULO"@, v.original_sku)
            &&& es_dato(h, fila, "NOM_ARTICULO"@, v.nom_articulo)
            &&& es_dato(h, fila, "ID_LINEA"@, v.id_linea)
            &&& es_dato(h, fila, "NOM_LINEA"@, v.nom_linea)
            &&& es_dato(h, fila, "ID_GRUPO"@, v.id_grupo)
            &&& es_dato(h, fila, "NOM_GRUPO"@, v.nom_grupo)
            &&& es_dato(h, fila, "ID_TIPO"@, v.id_tipo)
            &&& es_dato(h, fila, "NOM_TIPO"@, v.nom_tipo)
            &&& es_dato(h, fila, "ID_FAMILIA"@, v.id_familia)
            &&& es_dato(h, fila, "NOM_FAMILIA"@, v.nom_familia)
            &&& es_dato(h, fila, "DOC_CLIENTE"@, v.doc_cliente)
            &&& es_dato(h, fila, "NOM_CLIENTE"@, v.nom_cliente)
            &&& es_dato(h, fila, "REFERENCIA"@, v.referencia)
            &&& es_dato(h, fila, "COD_SUCURSAL"@, v.cod_sucursal)
            &&& es_dato(h, fila, "NOM_SUCURSAL"@, v.nom_sucursal)
            &&& es_dato(h, fila, "NOM_DEPARTAMENTO"@, v.departamento)
            &&& es_dato(h, fila, "NOM_PROVINCIA"@, v.provincia)
            &&& es_dato(h, fila, "NOM_DISTRITO"@, v.distrito)
            &&& es_dato(h, fila, "ID_VENDEDOR"@, v.id_vendedor)
            &&& es_dato(h, fila, "NOM_VENDEDOR"@, v.nom_vendedor)
            &&& es_dato(h, fila, "ID_PEDIDO"@, v.id_pedido)
            &&& v.mes_ref == etiqueta
            &&& v.file_source == archivo
        }),
{
    lema_es_dato(h, fila, "ID_ARTICULO"@);
    lema_es_dato(h, fila, "NOM_ARTICULO"@);
    lema_es_dato(h, fila, "ID_LINEA"@);
    lema_es_dato(h, fila, "NOM_LINEA"@);
    lema_es_dato(h, fila, "ID_GRUPO"@);
    lema_es_dato(h, fila, "NOM_GRUPO"@);
    lema_es_dato(h, fila, "ID_TIPO"@);
    lema_es_dato(h, fila, "NOM_TIPO"@);
    lema_es_dato(h, fila, "ID_FAMILIA"@);
    lema_es_dato(h, fila, "NOM_FAMILIA"@);
    lema_es_dato(h, fila, "DOC_CLIENTE"@);
    lema_es_dato(h, fila, "NOM_CLIENTE"@);
    lema_es_dato(h, fila, "REFERENCIA"@);
    lema_es_dato(h, fila, "COD_SUCURSAL"@);
    lema_es_dato(h, fila, "NOM_SUCURSAL"@);
    lema_es_dato(h, fila, "NOM_DEPARTAMENTO"@);
    lema_es_dato(h, fila, "NOM_PROVINCIA"@);
    lema_es_dato(h, fila, "NOM_DISTRITO"@);
    lema_es_dato(h, fila, "ID_VENDEDOR"@);
    lema_es_dato(h, fila, "NOM_VENDEDOR"@);
    lema_es_dato(h, fila, "ID_PEDIDO"@);
}

/// Los codigos de una venta son los de su columna, normalizados; la moneda es la que se diga
/// o, si no, soles; las fechas que faltan no se inventan; el ano es el numero de su columna.
pub proof fn ley_codigos_de_venta(
    h: Seq<Seq<char>>,
    fila: Seq<Seq<char>>,
    m: Montos,
    etiqueta: Seq<char>,
    archivo: Seq<char>,
    x: Seq<char>,
)
    ensures
        ({
            let v = venta_fila(h, fila, m, etiqueta, archivo);
            &&& v.id_articulo == id_limpio(v.original_sku)
            &&& es_dato(h, fila, "ID_CLIENTE"@, x) ==> v.id_cliente == id_cliente(x)
            &&& es_dato(h, fila, "TPO_DOC"@, x) ==> v.tpo_doc == texto::mayusculas(x)
            &&& es_dato(h, fila, "SERIE_DOC"@, x) ==> v.serie_doc == texto::mayusculas(id_limpio(x))
            &&& es_dato(h, fila, "NRO_DOC"@, x) ==> v.nro_doc == id_limpio(x)
            &&& es_dato(h, fila, "MONEDA"@, x) ==> v.moneda == (if x.len() > 0 {
                x
            } else {
                "Soles"@
            })
            &&& es_dato(h, fila, "FECHA_REF"@, x) ==> (x.len() == 0 ==> v.fecha_ref is None) && (
            x.len() > 0 ==> v.fecha_ref == Some(x))
            &&& es_dato(h, fila, "FECHA_VENC"@, x) ==> (x.len() == 0 ==> v.fecha_venc is None) && (
            x.len() > 0 ==> v.fecha_venc == Some(x))
            &&& es_dato(h, fila, "FECHA_ORIG"@, x) ==> v.fecha_orig == fecha_de(x)
            &&& v.mes == mes_etiqueta(etiqueta) as i32
            &&& es_dato(h, fila, "ANHO"@, x) ==> (match texto::entero_leido(
                x,
                i32::MIN as int,
                i32::MAX as int,
            ) {
                Some(n) => v.anho == n,
                None => v.anho == 0,
            })
        }),
{
    lema_dato_unico(h, fila, "ID_CLIENTE"@, x);
    lema_dato_unico(h, fila, "TPO_DOC"@, x);
    lema_dato_unico(h, fila, "SERIE_DOC"@, x);
    lema_dato_unico(h, fila, "NRO_DOC"@, x);
    lema_dato_unico(h, fila, "MONEDA"@, x);
    lema_dato_unico(h, fila, "FECHA_REF"@, x);
    lema_dato_unico(h, fila, "FECHA_VENC"@, x);
    lema_dato_unico(h, fila, "FECHA_ORIG"@, x);
    lema_dato_unico(h, fila, "ANHO"@, x);
    lema_entero_en_rango(x);
}

/// Un entero leido cabe en treinta y dos bits.
proof fn lema_entero_en_rango(s: Seq<char>)
    ensures
        texto::entero_leido(s, i32::MIN as int, i32::MAX as int) matches Some(n) ==> i32::MIN <= n
            <= i32::MAX,
{
    if s.len() > 0 {
        let t = s.drop_first();
        if texto::son_cifras(t) {
            lema_valor_positivo(t);
        }
    }
    if texto::son_cifras(s) {
        lema_valor_positivo(s);
    }
}

proof fn lema_valor_positivo(s: Seq<char>)
    requires
        texto::son_cifras(s),
    ensures
        texto::valor(s) >= 0,
    decreases s.len(),
{
    if s.len() > 0 {
        let t = s.drop_last();
        assert forall|i: int| 0 <= i < t.len() implies texto::es_cifra(#[trigger] t[i]) by {
            assert(t[i] == s[i]);
        }
        lema_valor_positivo(t);
        assert(texto::es_cifra(s[s.len() - 1]));
    }
}

proof fn lema_dato_unico(h: Seq<Seq<char>>, fila: Seq<Seq<char>>, nombre: Seq<char>, x: Seq<char>)
    ensures
        es_dato(h, fila, nombre, x) ==> x == celda(fila, columna(h, nombre)),
{
    lema_es_dato(h, fila, nombre);
    ley_columna(h, nombre);
    if es_dato(h, fila, nombre, x) {
        let y = celda(fila, columna(h, nombre));
        if columna(h, nombre) is Some {
            let i = columna(h, nombre)->0;
            assert(primera_con(h, nombre, i));
            if i >= fila.len() {
                assert(x =~= y);
            }
        } else {
            assert(x =~= y);
        }
    }
}

/// Los importes de una venta son los de su fila, cada uno en su sitio: ni se cambian entre si
/// ni se calculan de nuevo.
pub proof fn ley_importes_de_venta(
    h: Seq<Seq<char>>,
    fila: Seq<Seq<char>>,
    m: Montos,
    etiqueta: Seq<char>,
    archivo: Seq<char>,
)
    ensures
        ({
            let v = venta_fila(h, fila, m, etiqueta, archivo);
            &&& v.cantidad == m.cantidad
            &&& v.cantidad_fae == m.cantidad_fae
            &&& v.soles == m.soles
            &&& v.dolares == m.dolares
            &&& v.precio_unitario == m.precio_unitario
        }),
        ({
            let v = derivada(venta_simple_cruda(h, fila, m, etiqueta, archivo));
            &&& v.cantidad == m.cantidad
            &&& v.soles == m.soles
            &&& v.dolares == m.dolares
        }),
{
}

/// El numero de cada columna sale de su celda, y el importe en soles de la de totales solo si
/// no hay otra.
pub proof fn ley_numeros_de_fila(h: Seq<Seq<char>>, fila: Seq<Seq<char>>, x: Seq<char>)
    ensures
        ({
            let n = numerales_fila(h, fila);
            let sin_soles = forall|j: int|
                0 <= j < h.len() ==> !texto::contiene(#[trigger] h[j], "SOLES"@);
            &&& es_dato(h, fila, "CANTIDAD"@, x) ==> n.cantidad == numeral(
                x,
                es_columna_cantidad("CANTIDAD"@),
            )
            &&& es_dato(h, fila, "CANTIDAD FAE"@, x) ==> n.cantidad_fae == numeral(
                x,
                es_columna_cantidad("CANTIDAD FAE"@),
            )
            &&& es_dato(h, fila, "SOLES"@, x) && !sin_soles ==> n.soles == numeral(
                x,
                es_columna_cantidad("SOLES"@),
            )
            &&& es_dato(h, fila, "TOTAL"@, x) && sin_soles ==> n.soles == numeral(
                x,
                es_columna_cantidad("SOLES"@),
            )
            &&& es_dato(h, fila, "DOLARES"@, x) ==> n.dolares == numeral(
                x,
                es_columna_cantidad("DOLARES"@),
            )
        }),
        ({
            let n = numerales_simples(h, fila);
            &&& es_dato(h, fila, "CANTIDAD"@, x) ==> n.cantidad == numeral(
                x,
                es_columna_cantidad("CANTIDAD"@),
            )
            &&& es_dato(h, fila, "SOLES"@, x) ==> n.soles == numeral(
                x,
                es_columna_cantidad("SOLES"@),
            )
            &&& es_dato(h, fila, "DOLARES"@, x) ==> n.dolares == numeral(
                x,
                es_columna_cantidad("DOLARES"@),
            )
            &&& n.cantidad_fae.len() == 0
        }),
{
    lema_dato_unico(h, fila, "CANTIDAD"@, x);
    lema_dato_unico(h, fila, "CANTIDAD FAE"@, x);
    lema_dato_unico(h, fila, "SOLES"@, x);
    lema_dato_unico(h, fila, "TOTAL"@, x);
    lema_dato_unico(h, fila, "DOLARES"@, x);
    ley_columna(h, "SOLES"@);
    ley_columna(h, "TOTAL"@);
    if columna(h, "SOLES"@) is Some {
        assert(texto::contiene(h[columna(h, "SOLES"@)->0], "SOLES"@));
    }
}

/// El ano y el mes de una etiqueta son los numeros de sus cifras, lleve lo que lleve detras.
pub proof fn ley_etiqueta(y: Seq<char>, m: Seq<char>, resto: Seq<char>)
    requires
        y.len() == 4,
        m.len() == 2,
        texto::son_cifras(y),
        texto::son_cifras(m),
    ensures
        anho_etiqueta(y + seq!['-'] + m + resto) == texto::valor(y),
        mes_etiqueta(y + seq!['-'] + m + resto) == texto::valor(m),
{
    let s = y + seq!['-'] + m + resto;
    lema_bytes_de_prefijo(s, 0, 4);
    lema_bytes_de_prefijo(s, 5, 7);
    assert(s.subrange(0, 4) =~= y);
    assert(s.subrange(5, 7) =~= m);
    lema_valor_corto(y);
    lema_valor_corto(m);
    assert(texto::es_cifra(y[0]));
    assert(texto::es_cifra(m[0]));
}

proof fn lema_valor_corto(s: Seq<char>)
    requires
        s.len() <= 4,
        texto::son_cifras(s),
    ensures
        0 <= texto::valor(s) <= 9999,
{
    reveal_with_fuel(texto::valor, 6);
    assert forall|i: int| 0 <= i < s.len() implies 0 <= texto::valor_cifra(#[trigger] s[i]) <= 9 by {
        assert(texto::es_cifra(s[i]));
    }
    if s.len() > 0 {
        let a = s.drop_last();
        assert(s.last() == s[s.len() - 1]);
        if a.len() > 0 {
            assert(a.last() == s[s.len() - 2]);
            let b = a.drop_last();
            if b.len() > 0 {
                assert(b.last() == s[s.len() - 3]);
                let c = b.drop_last();
                if c.len() > 0 {
                    assert(c.last() == s[s.len() - 4]);
                    assert(c.drop_last().len() == 0);
                }
            }
        }
    }
}

/// Los siete primeros caracteres son ASCII: sus bytes son sus posiciones.
proof fn lema_bytes_de_prefijo(s: Seq<char>, a: int, b: int)
    requires
        0 <= a <= b <= 7 <= s.len(),
        forall|i: int| 0 <= i < 7 ==> (#[trigger] s[i] as u32) < 0x80,
    ensures
        texto::corte_bytes(s, a, b) == Some(s.subrange(a, b)),
{
    lema_prefijo_ascii(s, a);
    lema_prefijo_ascii(s, b);
}

proof fn lema_prefijo_ascii(s: Seq<char>, b: int)
    requires
        0 <= b <= s.len(),
        forall|i: int| 0 <= i < b ==> (#[trigger] s[i] as u32) < 0x80,
    ensures
        texto::indice_byte(s, b) == Some(b),
    decreases b,
{
    if b > 0 {
        let t = s.drop_first();
        assert forall|i: int| 0 <= i < b - 1 implies (#[trigger] t[i] as u32) < 0x80 by {
            assert(t[i] == s[i + 1]);
        }
        lema_prefijo_ascii(t, b - 1);
        assert((s[0] as u32) < 0x80);
    }
}

/// El tipo de operacion: una nota de credito es devolucion si resta cantidad y ajuste de valor
/// si no; una de debito es nota de debito, y todo lo demas, venta.
pub proof fn ley_tipo(tpo_doc: Seq<char>, cantidad: Monto)
    ensures
        ({
            let t = tipo_de(tpo_doc, cantidad);
            let resta = 0x8000_0000_0000_0000 < cantidad.0 <= 0xfff0_0000_0000_0000;
            &&& tpo_doc == "NCR"@ && resta ==> t == "devolucion"@
            &&& tpo_doc == "NCR"@ && !resta ==> t == "ajuste_valor"@
            &&& tpo_doc == "NDB"@ ==> t == "nota_debito"@
            &&& tpo_doc != "NCR"@ && tpo_doc != "NDB"@ ==> t == "venta"@
        }),
{
    reveal_strlit("NCR");
    reveal_strlit("NDB");
    assert("NCR"@[0] == 'N' && "NCR"@[1] == 'C');
    assert("NDB"@[1] == 'D');
}

/// De una referencia `tipo/serie-numero` se toman la serie, en mayusculas, y el numero; la
/// serie acaba en el primer guion. Sin referencia, o sin guion, no hay factura.
pub proof fn ley_factura_referida(a: Seq<char>, serie: Seq<char>, nro: Seq<char>)
    requires
        !serie.contains('/') && !serie.contains('-'),
        !nro.contains('/'),
    ensures
        factura_referida(a + seq!['/'] + serie + seq!['-'] + nro) == Some(
            (texto::mayusculas(id_limpio(serie)), id_limpio(nro)),
        ),
        factura_referida(a + seq!['/'] + serie) is None,
        texto::todo_blanco(a) ==> factura_referida(a) is None,
{
    let cola = serie + seq!['-'] + nro;
    let r = a + seq!['/'] + serie + seq!['-'] + nro;
    assert(r =~= a + seq!['/'] + cola);
    assert forall|k: int| 0 <= k < cola.len() implies cola[k] != '/' by {
        if k < serie.len() {
            assert(serie.contains(serie[k]));
        } else if k > serie.len() {
            assert(nro.contains(nro[k - serie.len() - 1]));
        }
    }
    lema_tras_barra(a, cola);
    lema_no_vacia(r, a.len() as int);
    assert forall|i: int| 0 <= i < serie.len() implies #[trigger] serie[i] != '-' by {
        assert(serie.contains(serie[i]));
    }
    lema_donde(serie, '-', nro);
    assert(cola.take(serie.len() as int) =~= serie);
    assert(cola.skip(serie.len() as int + 1) =~= nro);
    let q = a + seq!['/'] + serie;
    lema_tras_barra(a, serie);
    lema_no_esta(serie, '-');
    if texto::todo_blanco(a) {
        let nada = Seq::<char>::empty();
        texto::ley_recorte(a, nada, nada);
        assert(a + nada + nada =~= a);
    }
}

proof fn lema_tras_barra(a: Seq<char>, s: Seq<char>)
    requires
        !s.contains('/'),
    ensures
        texto::tras_ultimo(a + seq!['/'] + s, '/') == s,
    decreases s.len(),
{
    let t = a + seq!['/'] + s;
    if s.len() == 0 {
        assert(t.last() == '/');
        assert(s =~= Seq::<char>::empty());
    } else {
        assert(t.last() == s.last());
        assert(s.contains(s[s.len() - 1]));
        let u = s.drop_last();
        assert forall|k: int| 0 <= k < u.len() implies u[k] != '/' by {
            assert(s.contains(s[k]));
        }
        assert(t.drop_last() =~= a + seq!['/'] + u);
        lema_tras_barra(a, u);
        assert(u.push(s.last()) =~= s);
    }
}

/// Un texto con un caracter que no es blanco no queda vacio al recortarlo.
proof fn lema_no_vacia(s: Seq<char>, i: int)
    requires
        0 <= i < s.len(),
        s[i] == '/',
    ensures
        texto::recortado(s).len() > 0,
{
    let p = texto::ley_recorte_parte(s);
    if texto::recortado(s).len() == 0 {
        assert(s == p.0 + texto::recortado(s) + p.1);
        if i < p.0.len() {
            assert(s[i] == p.0[i]);
            assert(texto::es_blanco(p.0[i]));
        } else {
            assert(s[i] == p.1[i - p.0.len()]);
            assert(texto::es_blanco(p.1[i - p.0.len()]));
        }
    }
}

/// Derivar solo toca el tipo, la factura referida y el folio. El folio es el tipo, la serie y
/// el numero del documento: dos documentos del mismo tipo y serie con otro numero tienen otro
/// folio.
pub proof fn ley_derivada(v: VentaVista, w: VentaVista)
    ensures
        ({
            let d = derivada(v);
            &&& d == (VentaVista {
                tipo_operacion: d.tipo_operacion,
                factura_ref_serie: d.factura_ref_serie,
                factura_ref_nro: d.factura_ref_nro,
                folio_unico: d.folio_unico,
                ..v
            })
            &&& d.folio_unico == v.tpo_doc + seq!['/'] + v.serie_doc + seq!['/'] + v.nro_doc
            &&& d.tipo_operacion == tipo_de(v.tpo_doc, v.cantidad)
            &&& factura_referida(v.referencia) matches Some(p) ==> d.factura_ref_serie == p.0
                && d.factura_ref_nro == p.1
            &&& factura_referida(v.referencia) is None ==> d.factura_ref_serie
                == v.factura_ref_serie && d.factura_ref_nro == v.factura_ref_nro
            &&& v.tpo_doc == w.tpo_doc && v.serie_doc == w.serie_doc && v.nro_doc != w.nro_doc
                ==> d.folio_unico != derivada(w).folio_unico
        }),
{
    reveal_strlit("/");
    assert("/"@ =~= seq!['/']);
    let d = derivada(v);
    let e = derivada(w);
    if v.tpo_doc == w.tpo_doc && v.serie_doc == w.serie_doc && d.folio_unico == e.folio_unico {
        let n = v.tpo_doc.len() + v.serie_doc.len() + 2;
        assert(d.folio_unico.skip(n as int) =~= v.nro_doc);
        assert(e.folio_unico.skip(n as int) =~= w.nro_doc);
    }
}

/// Una fecha se lee con barras o, si no, con guiones; si no se lee de ninguna forma, o la celda
/// esta en blanco, es el uno de enero de 1970.
pub proof fn ley_fecha(celda: Seq<char>)
    ensures
        ({
            let s = texto::recortado(celda);
            let barras = fecha::fecha_leida(s, "%d/%m/%Y"@);
            let guiones = fecha::fecha_leida(s, "%d-%m-%Y"@);
            let epoca = Fecha { anho: 1970, mes: 1, dia: 1 };
            &&& s.len() == 0 ==> fecha_de(celda) == epoca
            &&& s.len() > 0 && barras is Some ==> fecha_de(celda) == barras->0
            &&& s.len() > 0 && barras is None && guiones is Some ==> fecha_de(celda) == guiones->0
            &&& barras is None && guiones is None ==> fecha_de(celda) == epoca
        }),
{
}

/// Es una nota lo que, en mayusculas, dice `NCR` o `NDB` en cualquier parte.
pub proof fn ley_nota(t: Seq<char>, a: Seq<char>, b: Seq<char>)
    ensures
        texto::mayusculas(t) == a + "NCR"@ + b ==> nota(t),
        texto::mayusculas(t) == a + "NDB"@ + b ==> nota(t),
        texto::mayusculas(t).len() < 3 ==> !nota(t),
        texto::mayusculas(t) == "F01"@ || texto::mayusculas(t) == "B01"@ ==> !nota(t),
{
    reveal_strlit("NCR");
    reveal_strlit("NDB");
    reveal_strlit("F01");
    reveal_strlit("B01");
    texto::ley_contiene(a, "NCR"@, b);
    texto::ley_contiene(a, "NDB"@, b);
    let u = texto::mayusculas(t);
    if u == "F01"@ || u == "B01"@ {
        assert forall|i: int| !texto::aparece(u, "NCR"@, i) && !texto::aparece(u, "NDB"@, i) by {
            if 0 <= i && i + 3 <= u.len() {
                assert(u.subrange(i, i + 3)[0] == u[0]);
            }
        }
    }
}

/// Un articulo y un cliente.
pub open spec fn con_articulo_y_cliente(v: VentaVista) -> bool {
    v.id_articulo.len() > 0 && v.id_cliente.len() > 0
}

/// De una exportacion salen, en el orden de las filas, las ventas de todas las que tienen
/// articulo y cliente, cada una con los importes de su fila, y ninguna otra.
pub proof fn ley_ventas_de_export(
    h: Seq<Seq<char>>,
    filas: Seq<Seq<Seq<char>>>,
    montos: Seq<Montos>,
    etiqueta: Seq<char>,
    archivo: Seq<char>,
    n: nat,
)
    ensures
        ventas_utiles(h, filas, montos, etiqueta, archivo, n) == Seq::new(
            n,
            |i: int| venta_fila(h, filas[i], montos[i], etiqueta, archivo),
        ).filter(|v: VentaVista| con_articulo_y_cliente(v)),
    decreases n,
{
    reveal(Seq::filter);
    let f = |i: int| venta_fila(h, filas[i], montos[i], etiqueta, archivo);
    let p = |v: VentaVista| con_articulo_y_cliente(v);
    let todas = Seq::new(n, f);
    if n > 0 {
        ley_ventas_de_export(h, filas, montos, etiqueta, archivo, (n - 1) as nat);
        assert(todas.drop_last() =~= Seq::new((n - 1) as nat, f));
        assert(todas.last() == venta_fila(h, filas[n - 1], montos[n - 1], etiqueta, archivo));
    } else {
        assert(todas.filter(p) =~= Seq::<VentaVista>::empty());
    }
}

/// La etiqueta de un archivo `ventas_x` es `x`, y la de otro, su nombre.
pub proof fn ley_etiqueta_archivo(x: Seq<char>)
    requires
        !texto::contiene(x, "ventas_"@),
    ensures
        etiqueta_de(Some("ventas_"@ + x)) == x,
        etiqueta_de(Some(x)) == x,
        etiqueta_de(None) == "unknown"@,
{
    reveal_strlit("unknown");
    reveal_strlit("ventas_");
    texto::ley_reemplazo("unknown"@, "ventas_"@, Seq::empty());
    texto::lema_indice("unknown"@, "ventas_"@, 0);
    if let Some(k) = texto::indice("unknown"@, "ventas_"@, 0) {
        assert("unknown"@.subrange(k, k + 7)[0] == "unknown"@[0]);
    }
    reveal_strlit("ventas_");
    let p = "ventas_"@;
    texto::ley_reemplazo(x, p, seq![]);
    texto::lema_indice(x, p, 0);
    let s = p + x;
    texto::ley_contiene(seq![], p, x);
    assert(Seq::<char>::empty() + p + x =~= s);
    assert(texto::indice(s, p, 0) == Some(0int));
    texto::ley_reemplazo(s, p, seq![]);
    assert(s.skip(p.len() as int) =~= x);
    assert(s.take(0) + Seq::<char>::empty() + x =~= x);
}

/// La fila `f` es de la factura que corrige la nota `v`.
pub open spec fn corrige(v: VentaVista, f: VentaVista) -> bool {
    &&& !nota(f.tpo_doc)
    &&& f.serie_doc == v.factura_ref_serie && f.nro_doc == v.factura_ref_nro
    &&& v.factura_ref_serie.len() > 0 && v.factura_ref_nro.len() > 0
}

/// Que se hace con una fila. La de una linea permitida se acepta siempre. De las demas solo se
/// miran las notas: se acepta la que corrige una factura con alguna fila permitida, este donde
/// este; queda pendiente la que nombra una factura que no esta; y se excluye el resto.
pub proof fn ley_destino(filas: Seq<VentaVista>, lineas: Seq<Seq<char>>, v: VentaVista, i: int)
    ensures
        ({
            let d = destino(filas, lineas, v);
            let permitida = config::permitida(lineas, v.id_linea);
            let nombra = nota(v.tpo_doc) && v.factura_ref_serie.len() > 0 && v.factura_ref_nro.len()
                > 0;
            let falta = forall|j: int| 0 <= j < filas.len() ==> !corrige(v, #[trigger] filas[j]);
            &&& permitida ==> d is Aceptada
            &&& !permitida && !nombra ==> d is Excluida
            &&& !permitida && nombra && falta ==> d is Pendiente
            &&& d is Pendiente ==> !permitida && nombra && falta
            &&& nombra && 0 <= i < filas.len() && corrige(v, filas[i]) && config::permitida(
                lineas,
                filas[i].id_linea,
            ) ==> d is Aceptada
            &&& d is Aceptada && !permitida ==> nombra && exists|j: int|
                0 <= j < filas.len() && corrige(v, #[trigger] filas[j]) && config::permitida(
                    lineas,
                    filas[j].id_linea,
                )
        }),
{
    let serie = v.factura_ref_serie;
    let nro = v.factura_ref_nro;
    assert forall|j: int| 0 <= j < filas.len() && serie.len() > 0 && nro.len() > 0 implies corrige(
        v,
        #[trigger] filas[j],
    ) == es_factura(filas[j], serie, nro) by {}
    if 0 <= i < filas.len() && corrige(v, filas[i]) {
        assert(es_factura(filas[i], serie, nro));
    }
    if factura_presente(filas, serie, nro) {
        let j = choose|j: int| 0 <= j < filas.len() && #[trigger] es_factura(filas[j], serie, nro);
        assert(corrige(v, filas[j]) || serie.len() == 0 || nro.len() == 0);
    }
    if factura_permitida(filas, lineas, serie, nro) {
        let j = choose|j: int|
            0 <= j < filas.len() && #[trigger] es_factura(filas[j], serie, nro)
                && config::permitida(lineas, filas[j].id_linea);
        assert(es_factura(filas[j], serie, nro));
        assert(corrige(v, filas[j]) || serie.len() == 0 || nro.len() == 0);
    }
}

/// Una nota se resuelve si alguna de las filas de su factura en la base es de una linea
/// permitida, la que sea: el orden no importa y anadir filas a la factura no la descarta.
pub proof fn ley_resuelta(
    v: VentaVista,
    a: Seq<Seq<char>>,
    linea: Seq<char>,
    b: Seq<Seq<char>>,
    lineas: Seq<Seq<char>>,
)
    requires
        v.factura_ref_serie.len() > 0,
        v.factura_ref_nro.len() > 0,
    ensures
        config::permitida(lineas, linea) ==> resuelta(v, a.push(linea) + b, lineas),
        resuelta(v, a, lineas) ==> resuelta(v, a + b, lineas) && resuelta(v, b + a, lineas),
        resuelta(v, a + b, lineas) == resuelta(v, b + a, lineas),
        resuelta(v, a + b, lineas) ==> resuelta(v, a, lineas) || resuelta(v, b, lineas),
        !config::permitida(lineas, linea) ==> resuelta(v, a.push(linea), lineas) == resuelta(
            v,
            a,
            lineas,
        ),
        !resuelta(v, seq![], lineas),
{
    let todo = a.push(linea) + b;
    assert(todo[a.len() as int] == linea);
    lema_alguna(a, b, lineas);
    lema_alguna(b, a, lineas);
    lema_alguna(a, seq![linea], lineas);
    assert(a + seq![linea] =~= a.push(linea));
}

pub open spec fn alguna(a: Seq<Seq<char>>, lineas: Seq<Seq<char>>) -> bool {
    exists|i: int| 0 <= i < a.len() && config::permitida(lineas, #[trigger] a[i])
}

proof fn lema_alguna(a: Seq<Seq<char>>, b: Seq<Seq<char>>, lineas: Seq<Seq<char>>)
    ensures
        alguna(a + b, lineas) == (alguna(a, lineas) || alguna(b, lineas)),
{
    let c = a + b;
    if alguna(a, lineas) {
        let i = choose|i: int| 0 <= i < a.len() && config::permitida(lineas, #[trigger] a[i]);
        assert(c[i] == a[i]);
    }
    if alguna(b, lineas) {
        let i = choose|i: int| 0 <= i < b.len() && config::permitida(lineas, #[trigger] b[i]);
        assert(c[a.len() + i] == b[i]);
    }
    if alguna(c, lineas) {
        let i = choose|i: int| 0 <= i < c.len() && config::permitida(lineas, #[trigger] c[i]);
        if i < a.len() {
            assert(c[i] == a[i]);
        } else {
            assert(c[i] == b[i - a.len()]);
        }
    }
}

/// De las notas pendientes se guardan todas las que tienen en la base una fila permitida de su
/// factura, en cualquier posicion, y ninguna otra: cada una por lo suyo y en su orden.
pub proof fn ley_resueltas(
    pend: Seq<VentaVista>,
    en_base: Seq<Seq<Seq<char>>>,
    lineas: Seq<Seq<char>>,
    n: nat,
    i: int,
    k: int,
)
    requires
        n <= pend.len() == en_base.len(),
        0 <= i < n,
    ensures
        ({
            let r = resueltas(pend, en_base, lineas, n);
            let v = pend[i];
            &&& v.factura_ref_serie.len() > 0 && v.factura_ref_nro.len() > 0 && 0 <= k
                < en_base[i].len() && config::permitida(lineas, en_base[i][k]) ==> r.contains(v)
            &&& r.len() <= n
            &&& n == i + 1 && r.len() > resueltas(pend, en_base, lineas, i as nat).len() ==> r
                == resueltas(pend, en_base, lineas, i as nat).push(v) && exists|j: int|
                0 <= j < en_base[i].len() && config::permitida(lineas, #[trigger] en_base[i][j])
            &&& n == i + 1 && r.len() <= resueltas(pend, en_base, lineas, i as nat).len() ==> r
                == resueltas(pend, en_base, lineas, i as nat)
        }),
    decreases n,
{
    let r = resueltas(pend, en_base, lineas, n);
    let previas = resueltas(pend, en_base, lineas, (n - 1) as nat);
    if i < n - 1 {
        ley_resueltas(pend, en_base, lineas, (n - 1) as nat, i, k);
        if previas.contains(pend[i]) {
            let q = choose|q: int| 0 <= q < previas.len() && previas[q] == pend[i];
            assert(r[q] == pend[i]);
        }
    } else {
        if n > 1 {
            ley_resueltas(pend, en_base, lineas, (n - 1) as nat, 0, 0);
        }
        if resuelta(pend[i], en_base[i], lineas) {
            assert(r[previas.len() as int] == pend[i]);
        }
    }
}

/// Las ventas del formato simple salen, en su orden, de las filas con documento que no repiten
/// la cabecera; el cliente es el documento, y los nombres y la sucursal, los de su columna.
pub proof fn ley_venta_simple(
    h: Seq<Seq<char>>,
    fila: Seq<Seq<char>>,
    m: Montos,
    etiqueta: Seq<char>,
    archivo: Seq<char>,
    x: Seq<char>,
)
    ensures
        ({
            let v = derivada(venta_simple_cruda(h, fila, m, etiqueta, archivo));
            &&& es_dato(h, fila, "NRO_DOCUMENTO"@, v.nro_doc)
            &&& es_dato(h, fila, "NOM_CLIENTE"@, v.nom_cliente)
            &&& es_dato(h, fila, "COD_SUCURSAL"@, v.cod_sucursal)
            &&& es_dato(h, fila, "NOM_SUCURSAL"@, v.nom_sucursal)
            &&& v.id_cliente == id_cliente(v.nro_doc)
            &&& v.mes_ref == etiqueta && v.file_source == archivo
            &&& v.anho == anho_etiqueta(etiqueta) as i32 && v.mes == mes_etiqueta(etiqueta) as i32
            &&& es_dato(h, fila, "NRO_DOCUMENTO"@, x) ==> (util_simple(h, fila) <==> x.len() > 0 && x
                != "NRO_DOCUMENTO"@ && id_cliente(x).len() > 0)
        }),
{
    lema_es_dato(h, fila, "NRO_DOCUMENTO"@);
    lema_es_dato(h, fila, "NOM_CLIENTE"@);
    lema_es_dato(h, fila, "COD_SUCURSAL"@);
    lema_es_dato(h, fila, "NOM_SUCURSAL"@);
    lema_dato_unico(h, fila, "NRO_DOCUMENTO"@, x);
}

/// Las ventas del formato simple son una por cada fila que sirve, en su orden, con los importes
/// de su fila.
pub proof fn ley_ventas_simples(
    h: Seq<Seq<char>>,
    filas: Seq<Seq<Seq<char>>>,
    montos: Seq<Montos>,
    etiqueta: Seq<char>,
    archivo: Seq<char>,
    n: nat,
)
    requires
        n > 0,
    ensures
        ({
            let todas = ventas_simples(h, filas, montos, etiqueta, archivo, n);
            let previas = ventas_simples(h, filas, montos, etiqueta, archivo, (n - 1) as nat);
            let fila = filas[n - 1];
            if util_simple(h, fila) {
                &&& todas.len() == previas.len() + 1
                &&& todas.drop_last() == previas
                &&& todas.last().soles == montos[n - 1].soles
                &&& es_dato(h, fila, "NRO_DOCUMENTO"@, todas.last().nro_doc)
                &&& es_dato(h, fila, "NOM_CLIENTE"@, todas.last().nom_cliente)
            } else {
                todas == previas
            }
        }),
{
    let previas = ventas_simples(h, filas, montos, etiqueta, archivo, (n - 1) as nat);
    let todas = ventas_simples(h, filas, montos, etiqueta, archivo, n);
    lema_es_dato(h, filas[n - 1], "NRO_DOCUMENTO"@);
    lema_es_dato(h, filas[n - 1], "NOM_CLIENTE"@);
    if util_simple(h, filas[n - 1]) {
        assert(todas.drop_last() =~= previas);
    }
}

/// Lo que se guarda y lo que queda pendiente van en el orden de las filas, cada una tantas veces
/// como este. Si todas son de lineas permitidas se guardan todas.
pub proof fn ley_orden_del_reparto(filas: Seq<VentaVista>, lineas: Seq<Seq<char>>)
    ensures
        aceptadas(filas, lineas) == filas.filter(
            |v: VentaVista|
                !(destino(filas, lineas, v) is Pendiente) && !(destino(filas, lineas, v) is Excluida),
        ),
        pendientes(filas, lineas) == filas.filter(
            |v: VentaVista|
                !(destino(filas, lineas, v) is Aceptada) && !(destino(filas, lineas, v) is Excluida),
        ),
        (forall|i: int|
            0 <= i < filas.len() ==> config::permitida(lineas, (#[trigger] filas[i]).id_linea))
            ==> aceptadas(filas, lineas) == filas && pendientes(filas, lineas).len() == 0,
{
    let pa = |v: VentaVista| destino(filas, lineas, v) is Aceptada;
    let pp = |v: VentaVista| destino(filas, lineas, v) is Pendiente;
    let qa = |v: VentaVista|
        !(destino(filas, lineas, v) is Pendiente) && !(destino(filas, lineas, v) is Excluida);
    let qp = |v: VentaVista|
        !(destino(filas, lineas, v) is Aceptada) && !(destino(filas, lineas, v) is Excluida);
    assert(pa =~= qa);
    assert(pp =~= qp);
    if forall|i: int|
        0 <= i < filas.len() ==> config::permitida(lineas, (#[trigger] filas[i]).id_linea) {
        assert forall|i: int| 0 <= i < filas.len() implies pa(#[trigger] filas[i]) by {
            ley_destino(filas, lineas, filas[i], 0);
        }
        assert forall|i: int| 0 <= i < filas.len() implies !pp(#[trigger] filas[i]) by {
            ley_destino(filas, lineas, filas[i], 0);
        }
        crate::db::lema_filtro_todo(filas, pa);
        crate::db::lema_filtro_nada(filas, pp);
    }
}

/// Un numero que falta o no se entiende vale cero.
pub proof fn ley_entero_o_cero(n: nat, s: Seq<char>)
    requires
        n <= i32::MAX,
    ensures
        entero_o_cero(None) == 0,
        entero_o_cero(Some(texto::decimal(n))) == n,
        texto::entero_leido(s, i32::MIN as int, i32::MAX as int) is None ==> entero_o_cero(Some(s))
            == 0,
        no_vacio(s) == (if s.len() == 0 {
            None::<Seq<char>>
        } else {
            Some(s)
        }),
{
    texto::ley_decimal(n, i32::MAX as int);
    assert(texto::es_cifra(texto::decimal(n)[0]));
}

/// Los nombres de las columnas se miran en mayusculas y sin blancos en los extremos.
pub proof fn ley_cabecera_util(h: Seq<Seq<char>>, i: int)
    requires
        0 <= i < h.len(),
    ensures
        cabecera_util(h).len() == h.len(),
        cabecera_util(h)[i] == texto::mayusculas(texto::recortado(h[i])),
{
}

} // verus!
