//! Tablas de texto: lo que se lee de un archivo CSV y lo que se escribe en el.

use crate::texto;
use vstd::prelude::*;

verus! {

/// Una tabla con la cabecera aparte.
#[derive(Debug, Clone)]
pub struct Tabla {
    pub cabecera: Vec<String>,
    pub filas: Vec<Vec<String>>,
}

#[verifier::ext_equal]
pub struct TablaVista {
    pub cabecera: Seq<Seq<char>>,
    pub filas: Seq<Seq<Seq<char>>>,
}

pub open spec fn filas_de(filas: Seq<Vec<String>>) -> Seq<Seq<Seq<char>>> {
    filas.map_values(|f: Vec<String>| texto::textos(f@))
}

impl View for Tabla {
    type V = TablaVista;

    open spec fn view(&self) -> TablaVista {
        TablaVista { cabecera: texto::textos(self.cabecera@), filas: filas_de(self.filas@) }
    }
}

/// Cabecera y filas que lee `csv::Reader` con sus opciones de fabrica en los bytes
/// `datos`, o el texto del error que da.
pub uninterp spec fn csv_leido(datos: Seq<u8>) -> Result<
    (Seq<Seq<char>>, Seq<Seq<Seq<char>>>),
    Seq<char>,
>;

/// `csv::Reader::from_reader` sobre bytes ya leidos, con `headers` y `records`
/// hasta el final o hasta el primer error. Las reglas del formato no se enuncian:
/// el resultado se nombra con `csv_leido`.
#[verifier::external_body]
pub(crate) fn leer_csv(datos: &[u8]) -> (r: Result<Tabla, String>)
    ensures
        match r {
            Ok(t) => csv_leido(datos@) == Ok::<
                (Seq<Seq<char>>, Seq<Seq<Seq<char>>>),
                Seq<char>,
            >((t@.cabecera, t@.filas)),
            Err(e) => csv_leido(datos@) == Err::<
                (Seq<Seq<char>>, Seq<Seq<Seq<char>>>),
                Seq<char>,
            >(e@),
        },
{
    let mut lector = csv::Reader::from_reader(datos);
    let cabecera = lector.headers().map_err(|e| e.to_string())?;
    let cabecera: Vec<String> = cabecera.iter().map(String::from).collect();
    let filas: Result<Vec<csv::StringRecord>, csv::Error> = lector.records().collect();
    let filas = filas.map_err(|e| e.to_string())?;
    let filas = filas.iter().map(|f| f.iter().map(String::from).collect()).collect();
    Ok(Tabla { cabecera, filas })
}

/// Cabecera y `n` primeras filas que lee `csv::Reader` con sus opciones de fabrica
/// en los bytes `datos`, o el texto del error que da al leerlas.
pub uninterp spec fn csv_comienzo(datos: Seq<u8>, n: nat) -> Result<
    (Seq<Seq<char>>, Seq<Seq<Seq<char>>>),
    Seq<char>,
>;

/// `csv::Reader::from_reader` sobre bytes ya leidos, con `headers` y los `n` primeros
/// `records`; lo que venga detras no se lee. El resultado se nombra con
/// `csv_comienzo`.
#[verifier::external_body]
pub(crate) fn leer_comienzo(datos: &[u8], n: usize) -> (r: Result<Tabla, String>)
    ensures
        match r {
            Ok(t) => csv_comienzo(datos@, n as nat) == Ok::<
                (Seq<Seq<char>>, Seq<Seq<Seq<char>>>),
                Seq<char>,
            >((t@.cabecera, t@.filas)) && t@.filas.len() <= n,
            Err(e) => csv_comienzo(datos@, n as nat) == Err::<
                (Seq<Seq<char>>, Seq<Seq<Seq<char>>>),
                Seq<char>,
            >(e@),
        },
{
    let mut lector = csv::Reader::from_reader(datos);
    let cabecera = lector.headers().map_err(|e| e.to_string())?;
    let cabecera: Vec<String> = cabecera.iter().map(String::from).collect();
    let filas: Result<Vec<csv::StringRecord>, csv::Error> = lector.records().take(n).collect();
    let filas = filas.map_err(|e| e.to_string())?;
    let filas = filas.iter().map(|f| f.iter().map(String::from).collect()).collect();
    Ok(Tabla { cabecera, filas })
}

/// Lee los bytes de un archivo CSV.
pub fn abrir_tabla(datos: &[u8]) -> (r: Result<Tabla, String>)
    ensures
        match r {
            Ok(t) => csv_leido(datos@) == Ok::<
                (Seq<Seq<char>>, Seq<Seq<Seq<char>>>),
                Seq<char>,
            >((t@.cabecera, t@.filas)),
            Err(e) => csv_leido(datos@) == Err::<
                (Seq<Seq<char>>, Seq<Seq<Seq<char>>>),
                Seq<char>,
            >(e@),
        },
{
    leer_csv(datos)
}

/// Los bytes que escribe `csv::Writer` con sus opciones de fabrica para los
/// registros `filas`, o el texto del error que da.
pub uninterp spec fn csv_escrito(filas: Seq<Seq<Seq<char>>>) -> Result<Seq<u8>, Seq<char>>;

/// Todos los registros tienen tantos campos como el primero.
pub open spec fn parejas(filas: Seq<Seq<Seq<char>>>) -> bool {
    forall|i: int| 0 <= i < filas.len() ==> (#[trigger] filas[i]).len() == filas[0].len()
}

/// Hay registros, tienen campos y el primer campo no empieza por la marca de orden de
/// bytes, que al leer se quita.
pub open spec fn legibles(filas: Seq<Seq<Seq<char>>>) -> bool {
    &&& filas.len() > 0
    &&& filas[0].len() > 0
    &&& filas[0][0].len() == 0 || filas[0][0][0] != '\u{FEFF}'
}

/// `csv::Writer::from_writer` sobre un buffer en memoria, con `write_record` para
/// cada registro y `into_inner` al final. Las reglas de comillas no se enuncian: el
/// resultado se nombra con `csv_escrito`. Solo falla si algun registro no tiene tantos
/// campos como el primero, y `csv::Reader` lee en lo escrito los mismos registros.
#[verifier::external_body]
pub(crate) fn escribir_csv(filas: &Vec<Vec<String>>) -> (r: Result<Vec<u8>, String>)
    ensures
        match r {
            Ok(b) => csv_escrito(filas_de(filas@)) == Ok::<Seq<u8>, Seq<char>>(b@),
            Err(e) => csv_escrito(filas_de(filas@)) == Err::<Seq<u8>, Seq<char>>(e@),
        },
        r is Ok <==> parejas(filas_de(filas@)),
        (r matches Ok(b) ==> legibles(filas_de(filas@)) ==> csv_leido(b@) == Ok::<
            (Seq<Seq<char>>, Seq<Seq<Seq<char>>>),
            Seq<char>,
        >((filas_de(filas@)[0], filas_de(filas@).drop_first()))),
{
    let mut w = csv::Writer::from_writer(Vec::new());
    for f in filas {
        w.write_record(f).map_err(|e| e.to_string())?;
    }
    w.into_inner().map_err(|e| e.to_string())
}

} // verus!
