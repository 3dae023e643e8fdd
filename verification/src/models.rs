//! Una venta del ERP y los importes que lleva.

use crate::fecha;
use crate::fecha::Fecha;
use vstd::prelude::*;

verus! {

/// Un importe: los 64 bits de su numero en coma flotante de doble precision
/// (IEEE 754, `binary64`).
#[derive(Debug, Clone, Copy, PartialEq, Eq, Structural)]
pub struct Monto(pub u64);

impl Monto {
    /// El importe es cero, con cualquier signo.
    pub open spec fn nulo(self) -> bool {
        self.0 == 0 || self.0 == 0x8000_0000_0000_0000
    }

    /// El importe es menor que cero: signo puesto, ni cero ni NaN.
    pub open spec fn menor_que_cero(self) -> bool {
        0x8000_0000_0000_0000 < self.0 <= 0xfff0_0000_0000_0000
    }

    pub fn cero() -> (r: Monto)
        ensures
            r == Monto(0),
    {
        Monto(0)
    }

    pub fn es_cero(&self) -> (r: bool)
        ensures
            r == self.nulo(),
    {
        self.0 == 0 || self.0 == 0x8000_0000_0000_0000
    }

    pub fn es_negativo(&self) -> (r: bool)
        ensures
            r == self.menor_que_cero(),
    {
        0x8000_0000_0000_0000 < self.0 && self.0 <= 0xfff0_0000_0000_0000
    }
}

/// Una linea de un documento de venta.
#[derive(Debug, Clone)]
pub struct Venta {
    pub id_articulo: String,
    pub original_sku: String,
    pub nom_articulo: String,
    pub id_linea: String,
    pub nom_linea: String,
    pub id_grupo: String,
    pub nom_grupo: String,
    pub id_tipo: String,
    pub nom_tipo: String,
    pub id_familia: String,
    pub nom_familia: String,
    /// Codigo interno del cliente.
    pub id_cliente: String,
    /// RUC del cliente.
    pub doc_cliente: String,
    pub nom_cliente: String,
    pub tpo_doc: String,
    pub serie_doc: String,
    pub nro_doc: String,
    pub referencia: String,
    pub moneda: String,
    pub cantidad: Monto,
    /// Base sobre la que se aplico el descuento; puede diferir de `cantidad` en los
    /// ajustes de valor.
    pub cantidad_fae: Monto,
    pub soles: Monto,
    pub dolares: Monto,
    pub precio_unitario: Monto,
    pub anho: i32,
    pub mes: i32,
    pub fecha_orig: Fecha,
    pub fecha_ref: Option<String>,
    pub fecha_venc: Option<String>,
    pub cod_sucursal: String,
    pub nom_sucursal: String,
    pub departamento: String,
    pub provincia: String,
    pub distrito: String,
    pub id_vendedor: String,
    pub nom_vendedor: String,
    pub id_pedido: String,
    pub file_source: String,
    pub mes_ref: String,
    /// `venta`, `devolucion`, `ajuste_valor` o `nota_debito`.
    pub tipo_operacion: String,
    /// Serie de la factura que corrige una nota de credito o debito.
    pub factura_ref_serie: String,
    /// Numero de la factura que corrige una nota de credito o debito.
    pub factura_ref_nro: String,
    /// Tipo, serie y numero del documento.
    pub folio_unico: String,
}

#[verifier::ext_equal]
pub struct VentaVista {
    pub id_articulo: Seq<char>,
    pub original_sku: Seq<char>,
    pub nom_articulo: Seq<char>,
    pub id_linea: Seq<char>,
    pub nom_linea: Seq<char>,
    pub id_grupo: Seq<char>,
    pub nom_grupo: Seq<char>,
    pub id_tipo: Seq<char>,
    pub nom_tipo: Seq<char>,
    pub id_familia: Seq<char>,
    pub nom_familia: Seq<char>,
    pub id_cliente: Seq<char>,
    pub doc_cliente: Seq<char>,
    pub nom_cliente: Seq<char>,
    pub tpo_doc: Seq<char>,
    pub serie_doc: Seq<char>,
    pub nro_doc: Seq<char>,
    pub referencia: Seq<char>,
    pub moneda: Seq<char>,
    pub cantidad: Monto,
    pub cantidad_fae: Monto,
    pub soles: Monto,
    pub dolares: Monto,
    pub precio_unitario: Monto,
    pub anho: i32,
    pub mes: i32,
    pub fecha_orig: Fecha,
    pub fecha_ref: Option<Seq<char>>,
    pub fecha_venc: Option<Seq<char>>,
    pub cod_sucursal: Seq<char>,
    pub nom_sucursal: Seq<char>,
    pub departamento: Seq<char>,
    pub provincia: Seq<char>,
    pub distrito: Seq<char>,
    pub id_vendedor: Seq<char>,
    pub nom_vendedor: Seq<char>,
    pub id_pedido: Seq<char>,
    pub file_source: Seq<char>,
    pub mes_ref: Seq<char>,
    pub tipo_operacion: Seq<char>,
    pub factura_ref_serie: Seq<char>,
    pub factura_ref_nro: Seq<char>,
    pub folio_unico: Seq<char>,
}

pub open spec fn texto_opcional(o: Option<String>) -> Option<Seq<char>> {
    match o {
        Some(s) => Some(s@),
        None => None,
    }
}

impl View for Venta {
    type V = VentaVista;

    open spec fn view(&self) -> VentaVista {
        VentaVista {
            id_articulo: self.id_articulo@,
            original_sku: self.original_sku@,
            nom_articulo: self.nom_articulo@,
            id_linea: self.id_linea@,
            nom_linea: self.nom_linea@,
            id_grupo: self.id_grupo@,
            nom_grupo: self.nom_grupo@,
            id_tipo: self.id_tipo@,
            nom_tipo: self.nom_tipo@,
            id_familia: self.id_familia@,
            nom_familia: self.nom_familia@,
            id_cliente: self.id_cliente@,
            doc_cliente: self.doc_cliente@,
            nom_cliente: self.nom_cliente@,
            tpo_doc: self.tpo_doc@,
            serie_doc: self.serie_doc@,
            nro_doc: self.nro_doc@,
            referencia: self.referencia@,
            moneda: self.moneda@,
            cantidad: self.cantidad,
            cantidad_fae: self.cantidad_fae,
            soles: self.soles,
            dolares: self.dolares,
            precio_unitario: self.precio_unitario,
            anho: self.anho,
            mes: self.mes,
            fecha_orig: self.fecha_orig,
            fecha_ref: texto_opcional(self.fecha_ref),
            fecha_venc: texto_opcional(self.fecha_venc),
            cod_sucursal: self.cod_sucursal@,
            nom_sucursal: self.nom_sucursal@,
            departamento: self.departamento@,
            provincia: self.provincia@,
            distrito: self.distrito@,
            id_vendedor: self.id_vendedor@,
            nom_vendedor: self.nom_vendedor@,
            id_pedido: self.id_pedido@,
            file_source: self.file_source@,
            mes_ref: self.mes_ref@,
            tipo_operacion: self.tipo_operacion@,
            factura_ref_serie: self.factura_ref_serie@,
            factura_ref_nro: self.factura_ref_nro@,
            folio_unico: self.folio_unico@,
        }
    }
}

pub open spec fn vistas(v: Seq<Venta>) -> Seq<VentaVista> {
    v.map_values(|x: Venta| x@)
}

/// Una venta sin datos, en soles y con la fecha en el comienzo de 1970.
pub open spec fn venta_vacia(file_source: Seq<char>, mes_ref: Seq<char>) -> VentaVista {
    VentaVista {
        id_articulo: seq![],
        original_sku: seq![],
        nom_articulo: seq![],
        id_linea: seq![],
        nom_linea: seq![],
        id_grupo: seq![],
        nom_grupo: seq![],
        id_tipo: seq![],
        nom_tipo: seq![],
        id_familia: seq![],
        nom_familia: seq![],
        id_cliente: seq![],
        doc_cliente: seq![],
        nom_cliente: seq![],
        tpo_doc: seq![],
        serie_doc: seq![],
        nro_doc: seq![],
        referencia: seq![],
        moneda: "Soles"@,
        cantidad: Monto(0),
        cantidad_fae: Monto(0),
        soles: Monto(0),
        dolares: Monto(0),
        precio_unitario: Monto(0),
        anho: 0,
        mes: 0,
        fecha_orig: fecha::fecha_epoca(),
        fecha_ref: None,
        fecha_venc: None,
        cod_sucursal: seq![],
        nom_sucursal: seq![],
        departamento: seq![],
        provincia: seq![],
        distrito: seq![],
        id_vendedor: seq![],
        nom_vendedor: seq![],
        id_pedido: seq![],
        file_source: file_source,
        mes_ref: mes_ref,
        tipo_operacion: seq![],
        factura_ref_serie: seq![],
        factura_ref_nro: seq![],
        folio_unico: seq![],
    }
}

impl Venta {
    pub fn nuevo(file_source: &str, mes_ref: &str) -> (r: Venta)
        ensures
            r@ == venta_vacia(file_source@, mes_ref@),
    {
        Venta {
            id_articulo: String::new(),
            original_sku: String::new(),
            nom_articulo: String::new(),
            id_linea: String::new(),
            nom_linea: String::new(),
            id_grupo: String::new(),
            nom_grupo: String::new(),
            id_tipo: String::new(),
            nom_tipo: String::new(),
            id_familia: String::new(),
            nom_familia: String::new(),
            id_cliente: String::new(),
            doc_cliente: String::new(),
            nom_cliente: String::new(),
            tpo_doc: String::new(),
            serie_doc: String::new(),
            nro_doc: String::new(),
            referencia: String::new(),
            moneda: "Soles".to_owned(),
            cantidad: Monto(0),
            cantidad_fae: Monto(0),
            soles: Monto(0),
            dolares: Monto(0),
            precio_unitario: Monto(0),
            anho: 0,
            mes: 0,
            fecha_orig: fecha::epoca(),
            fecha_ref: None,
            fecha_venc: None,
            cod_sucursal: String::new(),
            nom_sucursal: String::new(),
            departamento: String::new(),
            provincia: String::new(),
            distrito: String::new(),
            id_vendedor: String::new(),
            nom_vendedor: String::new(),
            id_pedido: String::new(),
            file_source: file_source.to_owned(),
            mes_ref: mes_ref.to_owned(),
            tipo_operacion: String::new(),
            factura_ref_serie: String::new(),
            factura_ref_nro: String::new(),
            folio_unico: String::new(),
        }
    }
}

/// Un importe y el de signo contrario son cero a la vez; si no lo son, y son numeros, uno y solo
/// uno es menor que cero.
pub proof fn ley_signo(b: u64)
    requires
        b < 0x8000_0000_0000_0000,
    ensures
        ({
            let m = Monto(b);
            let n = Monto((b + 0x8000_0000_0000_0000) as u64);
            &&& m.nulo() <==> b == 0
            &&& n.nulo() <==> b == 0
            &&& !m.menor_que_cero()
            &&& n.menor_que_cero() <==> 0 < b <= 0x7ff0_0000_0000_0000
        }),
{
}

/// Una venta nueva no tiene datos: solo de donde viene y su mes, la moneda y la primera fecha.
pub proof fn ley_venta_vacia(a: Seq<char>, b: Seq<char>)
    ensures
        ({
            let v = venta_vacia(a, b);
            &&& v.file_source == a && v.mes_ref == b && v.moneda == "Soles"@
            &&& v.soles.nulo() && v.dolares.nulo() && v.cantidad.nulo() && v.cantidad_fae.nulo()
                && v.precio_unitario.nulo()
            &&& v.anho == 0 && v.mes == 0 && v.fecha_ref is None && v.fecha_venc is None
            &&& v.fecha_orig.anho == 1970 && v.fecha_orig.mes == 1 && v.fecha_orig.dia == 1
            &&& v.id_articulo.len() == 0 && v.id_cliente.len() == 0 && v.id_linea.len() == 0
            &&& v.tpo_doc.len() == 0 && v.serie_doc.len() == 0 && v.nro_doc.len() == 0
            &&& v.referencia.len() == 0 && v.tipo_operacion.len() == 0 && v.folio_unico.len() == 0
            &&& v.factura_ref_serie.len() == 0 && v.factura_ref_nro.len() == 0
        }),
{
}

} // verus!
