//! Conversion de hojas de calculo a registros de texto.

use crate::biff;
use crate::models::Monto;
use crate::tabla;
use crate::texto;
use calamine::Data;
use calamine::Reader;
use vstd::prelude::*;

verus! {

/// Lo que hay en una celda de una hoja.
pub enum Celda {
    Vacia,
    Texto(String),
    Real(Monto),
    Entero(i64),
    Logico(bool),
    /// Fechas, duraciones y errores, tal como se escriben.
    Literal(String),
}

pub enum CeldaVista {
    Vacia,
    Texto(Seq<char>),
    Real(u64),
    Entero(i64),
    Logico(bool),
    Literal(Seq<char>),
}

impl View for Celda {
    type V = CeldaVista;

    open spec fn view(&self) -> CeldaVista {
        match self {
            Celda::Vacia => CeldaVista::Vacia,
            Celda::Texto(s) => CeldaVista::Texto(s@),
            Celda::Real(m) => CeldaVista::Real(m.0),
            Celda::Entero(n) => CeldaVista::Entero(*n),
            Celda::Logico(b) => CeldaVista::Logico(*b),
            Celda::Literal(s) => CeldaVista::Literal(s@),
        }
    }
}

pub open spec fn hoja_vista(h: Seq<Vec<Celda>>) -> Seq<Seq<CeldaVista>> {
    h.map_values(|f: Vec<Celda>| f@.map_values(|c: Celda| c@))
}

/// Nombres de las hojas de un libro `.xls`, como los da `calamine::Xls`, o el texto
/// del error al abrirlo.
pub uninterp spec fn hojas_xls(datos: Seq<u8>) -> Result<Seq<Seq<char>>, Seq<char>>;

/// Celdas de una hoja de un libro `.xls`, como las da `calamine::Xls`, o el texto
/// del error.
pub uninterp spec fn rango_xls(datos: Seq<u8>, hoja: Seq<char>) -> Result<
    Seq<Seq<CeldaVista>>,
    Seq<char>,
>;

/// `calamine::Data`: una celda tal como la lee la biblioteca de hojas.
#[verifier::external_type_specification]
#[verifier::external_body]
pub struct ExDato(calamine::Data);

/// `calamine::Range`: las celdas de una hoja tal como las lee la biblioteca de hojas.
#[verifier::external_type_specification]
#[verifier::external_body]
#[verifier::reject_recursive_types(T)]
pub struct ExRango<T>(calamine::Range<T>);

/// Las celdas que hay en un `calamine::Range`, por filas.
pub uninterp spec fn contenido(r: calamine::Range<Data>) -> Seq<Seq<CeldaVista>>;

/// `calamine::Range::rows`: las filas del rango, cada celda en su variante. Una fecha se
/// escribe con su `Display` y un error con su `Debug`.
#[verifier::external_body]
fn filas_rango(r: &calamine::Range<Data>) -> (h: Vec<Vec<Celda>>)
    ensures
        hoja_vista(h@) == contenido(*r),
{
    let celda = |c: &Data| match c {
        Data::Empty => Celda::Vacia,
        Data::String(s) => Celda::Texto(s.clone()),
        Data::Float(f) => Celda::Real(Monto(f.to_bits())),
        Data::Int(i) => Celda::Entero(*i),
        Data::Bool(b) => Celda::Logico(*b),
        Data::DateTime(d) => Celda::Literal(d.to_string()),
        Data::DateTimeIso(s) => Celda::Literal(s.clone()),
        Data::DurationIso(s) => Celda::Literal(s.clone()),
        Data::Error(e) => Celda::Literal(format!("{e:?}")),
    };
    r.rows().map(|f| f.iter().map(celda).collect()).collect()
}

/// Todas las filas de una hoja tienen tantas celdas como la primera.
pub open spec fn pareja(h: Seq<Seq<CeldaVista>>) -> bool {
    forall|i: int| 0 <= i < h.len() ==> (#[trigger] h[i]).len() == h[0].len()
}

/// `calamine::open_workbook_from_rs` con `calamine::Xls` sobre los bytes del libro y
/// `sheet_names`. Lo que se reconoce como libro no se enuncia: el resultado se nombra con
/// `hojas_xls`. Los bytes han de estar sanos: con otros la biblioteca puede pararse o no
/// acabar.
#[verifier::external_body]
fn leer_hojas_xls(datos: &[u8]) -> (r: Result<Vec<String>, String>)
    requires
        biff::estado(datos@) is Sano,
    ensures
        match r {
            Ok(v) => hojas_xls(datos@) == Ok::<Seq<Seq<char>>, Seq<char>>(texto::textos(v@)),
            Err(e) => hojas_xls(datos@) == Err::<Seq<Seq<char>>, Seq<char>>(e@),
        },
{
    let libro: calamine::Xls<std::io::Cursor<&[u8]>> = calamine::open_workbook_from_rs(
        std::io::Cursor::new(datos),
    ).map_err(|e: calamine::XlsError| e.to_string())?;
    Ok(libro.sheet_names())
}

/// `calamine::open_workbook_from_rs` con `calamine::Xls` sobre los bytes del libro y
/// `worksheet_range` de una hoja. El resultado se nombra con `rango_xls`; sus filas son
/// todas igual de largas. Los bytes han de estar sanos: con otros la biblioteca puede
/// pararse o no acabar.
#[verifier::external_body]
fn leer_rango_xls(datos: &[u8], hoja: &str) -> (r: Result<calamine::Range<Data>, String>)
    requires
        biff::estado(datos@) is Sano,
    ensures
        match r {
            Ok(v) => rango_xls(datos@, hoja@) == Ok::<Seq<Seq<CeldaVista>>, Seq<char>>(
                contenido(v),
            ),
            Err(e) => rango_xls(datos@, hoja@) == Err::<Seq<Seq<CeldaVista>>, Seq<char>>(e@),
        },
        r matches Ok(v) ==> pareja(contenido(v)),
{
    let mut libro: calamine::Xls<std::io::Cursor<&[u8]>> = calamine::open_workbook_from_rs(
        std::io::Cursor::new(datos),
    ).map_err(|e: calamine::XlsError| e.to_string())?;
    libro.worksheet_range(hoja).map_err(|e| format!("{e:?}"))
}

/// Por que no se pudo convertir una hoja.
pub enum ErrorHoja {
    /// El libro no se abre.
    Abrir(String),
    SinHojas,
    /// La primera hoja no se lee: su nombre y la causa.
    Leer(String, String),
    /// El registro no se escribe.
    Escribir(String),
    /// Todas las filas estan vacias.
    SinFilas,
}

/// Con que se abre un libro.
#[derive(Debug, Clone, Copy, PartialEq, Eq, Structural)]
pub enum Lector {
    Xls,
    Xlsx,
    Xlsb,
    Ods,
    /// Con el primero de los otros que lo abra.
    Detectar,
}

/// El lector que toca por la extension del libro.
pub open spec fn lector(ext: Option<Seq<char>>) -> Lector {
    if ext == Some("xls"@) || ext == Some("xla"@) {
        Lector::Xls
    } else if ext == Some("xlsx"@) || ext == Some("xlsm"@) || ext == Some("xlam"@) {
        Lector::Xlsx
    } else if ext == Some("xlsb"@) {
        Lector::Xlsb
    } else if ext == Some("ods"@) {
        Lector::Ods
    } else {
        Lector::Detectar
    }
}

pub open spec fn vista_ext(ext: Option<&str>) -> Option<Seq<char>> {
    match ext {
        Some(s) => Some(s@),
        None => None,
    }
}

pub fn lector_de(ext: Option<&str>) -> (r: Lector)
    ensures
        r == lector(vista_ext(ext)),
{
    match ext {
        None => Lector::Detectar,
        Some(s) => if texto::iguales(s, "xls") || texto::iguales(s, "xla") {
            Lector::Xls
        } else if texto::iguales(s, "xlsx") || texto::iguales(s, "xlsm") || texto::iguales(
            s,
            "xlam",
        ) {
            Lector::Xlsx
        } else if texto::iguales(s, "xlsb") {
            Lector::Xlsb
        } else if texto::iguales(s, "ods") {
            Lector::Ods
        } else {
            Lector::Detectar
        },
    }
}

/// Lo que se lee en un libro: los nombres de sus hojas y las celdas de la primera, o por
/// que no se leen.
pub struct Contenido {
    pub nombres: Vec<String>,
    pub celdas: Result<Vec<Vec<Celda>>, String>,
}

/// Las celdas de la primera hoja de un libro ya abierto.
pub fn hoja_de(l: Result<Contenido, String>) -> (r: Result<Vec<Vec<Celda>>, ErrorHoja>)
    ensures
        match l {
            Err(e) => r == Err::<Vec<Vec<Celda>>, ErrorHoja>(ErrorHoja::Abrir(e)),
            Ok(c) => if c.nombres@.len() == 0 {
                r matches Err(ErrorHoja::SinHojas)
            } else {
                match c.celdas {
                    Ok(v) => r == Ok::<Vec<Vec<Celda>>, ErrorHoja>(v),
                    Err(e) => r matches Err(ErrorHoja::Leer(n, m)) && n@ == c.nombres@[0]@ && m
                        == e,
                }
            },
        },
{
    match l {
        Err(e) => Err(ErrorHoja::Abrir(e)),
        Ok(c) => {
            if c.nombres.len() == 0 {
                return Err(ErrorHoja::SinHojas);
            }
            match c.celdas {
                Ok(v) => Ok(v),
                Err(e) => Err(ErrorHoja::Leer(c.nombres[0].clone(), e)),
            }
        },
    }
}

/// Lo que se sigue de abrir un libro.
pub enum Apertura {
    /// Las celdas de su primera hoja, o por que no se leen.
    Hoja(Result<Vec<Vec<Celda>>, ErrorHoja>),
    /// Queda por abrir con ese lector.
    Pendiente(Lector),
}

/// Lo que se sigue de abrir un libro `.xls` sano.
pub open spec fn es_hoja_xls(datos: Seq<u8>, r: Apertura) -> bool {
    match hojas_xls(datos) {
        Err(e) => r matches Apertura::Hoja(Err(ErrorHoja::Abrir(m))) && m@ == e,
        Ok(hs) => if hs.len() == 0 {
            r matches Apertura::Hoja(Err(ErrorHoja::SinHojas))
        } else {
            match rango_xls(datos, hs[0]) {
                Ok(c) => r matches Apertura::Hoja(Ok(v)) && hoja_vista(v@) == c,
                Err(e) => r matches Apertura::Hoja(Err(ErrorHoja::Leer(n, m))) && n@ == hs[0] && m@
                    == e,
            }
        },
    }
}

/// Abre un libro y lee las celdas de su primera hoja. Aqui se abren los `.xls`: uno danado
/// no se abre y uno con macros queda pendiente, como los de los otros formatos. Con una
/// extension que no dice nada se prueba como `.xls` y, si no se abre, queda pendiente.
pub fn primera_hoja(datos: &[u8], ext: Option<&str>) -> (r: Apertura)
    ensures
        ({
            let l = lector(vista_ext(ext));
            match l {
                Lector::Xls | Lector::Detectar => match biff::estado(datos@) {
                    biff::Estado::Danado => r matches Apertura::Hoja(Err(ErrorHoja::Abrir(m)))
                        && m@ == "libro danado"@,
                    biff::Estado::Macros => r == Apertura::Pendiente(l),
                    biff::Estado::Sano => if l == Lector::Detectar && hojas_xls(datos@) is Err {
                        r == Apertura::Pendiente(l)
                    } else {
                        es_hoja_xls(datos@, r)
                    },
                },
                _ => r == Apertura::Pendiente(l),
            }
        }),
        r matches Apertura::Hoja(Ok(v)) ==> pareja(hoja_vista(v@)),
{
    let l = lector_de(ext);
    match l {
        Lector::Xls | Lector::Detectar => {},
        _ => {
            return Apertura::Pendiente(l);
        },
    }
    match biff::estado_libro(datos) {
        biff::Estado::Danado => {
            return Apertura::Hoja(Err(ErrorHoja::Abrir("libro danado".to_owned())));
        },
        biff::Estado::Macros => {
            return Apertura::Pendiente(l);
        },
        biff::Estado::Sano => {},
    }
    let nombres = match leer_hojas_xls(datos) {
        Err(e) => {
            if l == Lector::Detectar {
                return Apertura::Pendiente(l);
            }
            return Apertura::Hoja(hoja_de(Err(e)));
        },
        Ok(v) => v,
    };
    assert(texto::textos(nombres@).len() == nombres@.len());
    if nombres.len() == 0 {
        return Apertura::Hoja(Err(ErrorHoja::SinHojas));
    }
    assert(texto::textos(nombres@)[0] == nombres@[0]@);
    let celdas = match leer_rango_xls(datos, nombres[0].as_str()) {
        Ok(c) => Ok(filas_rango(&c)),
        Err(e) => Err(e),
    };
    Apertura::Hoja(hoja_de(Ok(Contenido { nombres, celdas })))
}

// ---------------------------------------------------------------------------
// Registros
// ---------------------------------------------------------------------------

/// Los numeros reales de una hoja, por filas.
pub open spec fn reales_fila(f: Seq<CeldaVista>) -> Seq<Monto>
    decreases f.len(),
{
    if f.len() == 0 {
        seq![]
    } else {
        let previos = reales_fila(f.drop_last());
        match f.last() {
            CeldaVista::Real(b) => previos.push(Monto(b)),
            _ => previos,
        }
    }
}

pub open spec fn reales_hoja(h: Seq<Seq<CeldaVista>>) -> Seq<Monto>
    decreases h.len(),
{
    if h.len() == 0 {
        seq![]
    } else {
        reales_hoja(h.drop_last()) + reales_fila(h.last())
    }
}

/// El texto de una celda; el de un numero real es `numero`.
pub open spec fn texto_celda(c: CeldaVista, numero: Seq<char>) -> Seq<char> {
    match c {
        CeldaVista::Vacia => seq![],
        CeldaVista::Texto(s) => texto::recortado(s),
        CeldaVista::Real(_) => numero,
        CeldaVista::Entero(n) => texto::decimal_signo(n as int),
        CeldaVista::Logico(b) => if b {
            "true"@
        } else {
            "false"@
        },
        CeldaVista::Literal(s) => s,
    }
}

/// El registro de una fila cuyos numeros reales se escriben con `textos`, a partir
/// del `desde`.
pub open spec fn registro(f: Seq<CeldaVista>, textos: Seq<Seq<char>>, desde: int) -> Seq<Seq<char>> {
    Seq::new(
        f.len(),
        |i: int| texto_celda(f[i], textos[desde + reales_fila(f.take(i)).len()]),
    )
}

pub open spec fn en_blanco(r: Seq<Seq<char>>) -> bool {
    forall|i: int| 0 <= i < r.len() ==> (#[trigger] r[i]).len() == 0
}

/// Los registros de las filas que no estan en blanco.
pub open spec fn registros(h: Seq<Seq<CeldaVista>>, textos: Seq<Seq<char>>) -> Seq<Seq<Seq<char>>>
    decreases h.len(),
{
    if h.len() == 0 {
        seq![]
    } else {
        let previos = registros(h.drop_last(), textos);
        let r = registro(h.last(), textos, reales_hoja(h.drop_last()).len() as int);
        if en_blanco(r) {
            previos
        } else {
            previos.push(r)
        }
    }
}

proof fn lema_reales_fila(f: Seq<CeldaVista>, i: int)
    requires
        0 <= i < f.len(),
    ensures
        reales_fila(f.take(i + 1)) == (match f[i] {
            CeldaVista::Real(b) => reales_fila(f.take(i)).push(Monto(b)),
            _ => reales_fila(f.take(i)),
        }),
{
    assert(f.take(i + 1).drop_last() =~= f.take(i));
}

proof fn lema_reales_hasta(f: Seq<CeldaVista>, i: int)
    requires
        0 <= i <= f.len(),
    ensures
        reales_fila(f.take(i)).len() <= reales_fila(f).len(),
    decreases f.len() - i,
{
    if i < f.len() {
        lema_reales_fila(f, i);
        lema_reales_hasta(f, i + 1);
    } else {
        assert(f.take(i) =~= f);
    }
}

proof fn lema_reales_hoja(h: Seq<Seq<CeldaVista>>, i: int)
    requires
        0 <= i < h.len(),
    ensures
        reales_hoja(h.take(i + 1)) == reales_hoja(h.take(i)) + reales_fila(h[i]),
        reales_hoja(h.take(i + 1)).len() <= reales_hoja(h).len(),
    decreases h.len() - i,
{
    assert(h.take(i + 1).drop_last() =~= h.take(i));
    if i + 1 < h.len() {
        lema_reales_hoja(h, i + 1);
    } else {
        assert(h.take(i + 1) =~= h);
    }
}

/// Los numeros reales de una hoja, en el orden en que se leen.
pub fn reales(h: &Vec<Vec<Celda>>) -> (r: Vec<Monto>)
    ensures
        r@ == reales_hoja(hoja_vista(h@)),
{
    let ghost hs = hoja_vista(h@);
    let mut r: Vec<Monto> = Vec::new();
    let mut i: usize = 0;
    assert(hs.take(0) =~= Seq::<Seq<CeldaVista>>::empty());
    while i < h.len()
        invariant
            0 <= i <= h@.len(),
            hs == hoja_vista(h@),
            r@ == reales_hoja(hs.take(i as int)),
        decreases h@.len() - i,
    {
        let fila = &h[i];
        let ghost f = fila@.map_values(|c: Celda| c@);
        let ghost antes = r@;
        assert(hs[i as int] == f);
        let mut j: usize = 0;
        assert(f.take(0) =~= Seq::<CeldaVista>::empty());
        assert(r@ =~= antes + reales_fila(f.take(0)));
        while j < fila.len()
            invariant
                0 <= j <= fila@.len(),
                f == fila@.map_values(|c: Celda| c@),
                r@ == antes + reales_fila(f.take(j as int)),
            decreases fila@.len() - j,
        {
            proof {
                lema_reales_fila(f, j as int);
            }
            assert(f[j as int] == fila@[j as int]@);
            match &fila[j] {
                Celda::Real(m) => {
                    r.push(*m);
                    assert(r@ =~= antes + reales_fila(f.take(j + 1)));
                },
                _ => {},
            }
            j = j + 1;
        }
        assert(f.take(j as int) =~= f);
        proof {
            lema_reales_hoja(hs, i as int);
        }
        i = i + 1;
    }
    assert(hs.take(i as int) =~= hs);
    r
}

fn texto_de_celda(c: &Celda, numero: &str) -> (r: String)
    ensures
        r@ == texto_celda(c@, numero@),
{
    match c {
        Celda::Vacia => String::new(),
        Celda::Texto(s) => texto::recortar(s.as_str()),
        Celda::Real(_) => numero.to_owned(),
        Celda::Entero(n) => texto::texto_i64(*n),
        Celda::Logico(b) => if *b {
            "true".to_owned()
        } else {
            "false".to_owned()
        },
        Celda::Literal(s) => s.clone(),
    }
}

/// Los registros de una hoja; `textos` son los de sus numeros reales, en orden.
pub fn registros_hoja(h: &Vec<Vec<Celda>>, textos: &Vec<String>) -> (r: Vec<Vec<String>>)
    requires
        textos@.len() == reales_hoja(hoja_vista(h@)).len(),
    ensures
        tabla::filas_de(r@) == registros(hoja_vista(h@), texto::textos(textos@)),
{
    let ghost hs = hoja_vista(h@);
    let ghost ts = texto::textos(textos@);
    let total: usize = textos.len();
    let mut r: Vec<Vec<String>> = Vec::new();
    let mut usados: usize = 0;
    let mut i: usize = 0;
    assert(hs.take(0) =~= Seq::<Seq<CeldaVista>>::empty());
    assert(tabla::filas_de(r@) =~= registros(hs.take(0), ts));
    while i < h.len()
        invariant
            0 <= i <= h@.len(),
            hs == hoja_vista(h@),
            ts == texto::textos(textos@),
            total == textos@.len() == reales_hoja(hs).len(),
            usados == reales_hoja(hs.take(i as int)).len(),
            tabla::filas_de(r@) == registros(hs.take(i as int), ts),
        decreases h@.len() - i,
    {
        let fila = &h[i];
        let ghost f = fila@.map_values(|c: Celda| c@);
        assert(hs[i as int] == f);
        proof {
            lema_reales_hoja(hs, i as int);
        }
        let ghost desde = usados as int;
        let mut reg: Vec<String> = Vec::new();
        let mut vacia: bool = true;
        let mut j: usize = 0;
        assert(f.take(0) =~= Seq::<CeldaVista>::empty());
        while j < fila.len()
            invariant
                0 <= j <= fila@.len(),
                f == fila@.map_values(|c: Celda| c@),
                ts == texto::textos(textos@),
                desde + reales_fila(f).len() <= total == textos@.len(),
                usados == desde + reales_fila(f.take(j as int)).len(),
                reg@.len() == j,
                forall|k: int|
                    0 <= k < j ==> (#[trigger] reg@[k])@ == texto_celda(
                        f[k],
                        ts[desde + reales_fila(f.take(k)).len()],
                    ),
                vacia ==> forall|k: int| 0 <= k < j ==> (#[trigger] reg@[k])@.len() == 0,
                !vacia ==> exists|k: int| 0 <= k < j && (#[trigger] reg@[k])@.len() > 0,
            decreases fila@.len() - j,
        {
            proof {
                lema_reales_fila(f, j as int);
                lema_reales_hasta(f, j + 1);
            }
            assert(f[j as int] == fila@[j as int]@);
            let c = &fila[j];
            let t = match c {
                Celda::Real(_) => {
                    let t = texto_de_celda(c, textos[usados].as_str());
                    assert(ts[usados as int] == textos@[usados as int]@);
                    usados = usados + 1;
                    t
                },
                _ => texto_de_celda(c, ""),
            };
            if t.as_str().unicode_len() > 0 {
                vacia = false;
            }
            let ghost previo = reg@;
            reg.push(t);
            assert(forall|k: int| 0 <= k < j ==> reg@[k] == previo[k]);
            assert(reg@[j as int] == t);
            j = j + 1;
        }
        proof {
            assert(f.take(j as int) =~= f);
            assert(texto::textos(reg@) =~= registro(f, ts, desde));
            let rs = registro(f, ts, desde);
            assert forall|k: int| 0 <= k < j implies #[trigger] rs[k] == reg@[k]@ by {
                assert(texto::textos(reg@)[k] == reg@[k]@);
            }
            if !vacia {
                let k = choose|k: int| 0 <= k < j && (#[trigger] reg@[k])@.len() > 0;
                assert(rs[k].len() > 0);
            }
            assert(vacia == en_blanco(rs));
            assert(hs.take(i + 1).drop_last() =~= hs.take(i as int));
        }
        let ghost antes = r@;
        if !vacia {
            r.push(reg);
            assert(tabla::filas_de(r@) =~= tabla::filas_de(antes).push(texto::textos(reg@)));
        }
        i = i + 1;
    }
    assert(hs.take(i as int) =~= hs);
    r
}

/// Los bytes del CSV de una hoja y cuantos registros lleva; `textos` son los de sus
/// numeros reales, en orden.
pub fn xls_to_csv(h: &Vec<Vec<Celda>>, textos: &Vec<String>) -> (r: Result<
    (Vec<u8>, usize),
    ErrorHoja,
>)
    requires
        textos@.len() == reales_hoja(hoja_vista(h@)).len(),
    ensures
        ({
            let regs = registros(hoja_vista(h@), texto::textos(textos@));
            match tabla::csv_escrito(regs) {
                Err(e) => r matches Err(ErrorHoja::Escribir(m)) && m@ == e,
                Ok(b) => if regs.len() == 0 {
                    r matches Err(ErrorHoja::SinFilas)
                } else {
                    r matches Ok(p) && p.0@ == b && p.1 == regs.len()
                },
            }
        }),
        r matches Err(ErrorHoja::Escribir(_)) <==> !tabla::parejas(
            registros(hoja_vista(h@), texto::textos(textos@)),
        ),
        (r matches Ok(p) ==> tabla::legibles(registros(hoja_vista(h@), texto::textos(textos@)))
            ==> tabla::csv_leido(p.0@) == Ok::<(Seq<Seq<char>>, Seq<Seq<Seq<char>>>), Seq<char>>(
            (
                registros(hoja_vista(h@), texto::textos(textos@))[0],
                registros(hoja_vista(h@), texto::textos(textos@)).drop_first(),
            ),
        )),
{
    let filas = registros_hoja(h, textos);
    assert(tabla::filas_de(filas@).len() == filas@.len());
    match tabla::escribir_csv(&filas) {
        Err(e) => Err(ErrorHoja::Escribir(e)),
        Ok(b) => if filas.len() == 0 {
            Err(ErrorHoja::SinFilas)
        } else {
            Ok((b, filas.len()))
        },
    }
}

/// Los registros de una hoja con todas las filas igual de largas son igual de largos:
/// su CSV se puede escribir siempre.
pub proof fn ley_registros_parejos(h: Seq<Seq<CeldaVista>>, textos: Seq<Seq<char>>)
    requires
        pareja(h),
    ensures
        tabla::parejas(registros(h, textos)),
        forall|i: int|
            0 <= i < registros(h, textos).len() ==> (#[trigger] registros(h, textos)[i]).len()
                == h[0].len(),
    decreases h.len(),
{
    if h.len() > 0 {
        let antes = h.drop_last();
        assert forall|i: int| 0 <= i < antes.len() implies (#[trigger] antes[i]).len()
            == antes[0].len() by {
            assert(antes[i] == h[i]);
            assert(antes[0] == h[0]);
        }
        ley_registros_parejos(antes, textos);
        let previos = registros(antes, textos);
        let todos = registros(h, textos);
        assert forall|i: int| 0 <= i < todos.len() implies (#[trigger] todos[i]).len()
            == h[0].len() by {
            if i < previos.len() {
                assert(todos[i] == previos[i]);
                assert(antes.len() > 0);
                assert(antes[0] == h[0]);
            } else {
                assert(h[h.len() - 1].len() == h[0].len());
            }
        }
    }
}

/// Ningun registro de una hoja queda en blanco, y no hay mas registros que filas.
pub proof fn ley_registros_con_datos(h: Seq<Seq<CeldaVista>>, textos: Seq<Seq<char>>)
    ensures
        registros(h, textos).len() <= h.len(),
        forall|i: int|
            0 <= i < registros(h, textos).len() ==> !en_blanco(#[trigger] registros(h, textos)[i]),
    decreases h.len(),
{
    if h.len() > 0 {
        ley_registros_con_datos(h.drop_last(), textos);
        let previos = registros(h.drop_last(), textos);
        let todos = registros(h, textos);
        assert forall|i: int| 0 <= i < todos.len() implies !en_blanco(#[trigger] todos[i]) by {
            if i < previos.len() {
                assert(todos[i] == previos[i]);
            }
        }
    }
}

// ---------------------------------------------------------------------------
// Leyes de los registros
// ---------------------------------------------------------------------------

/// Cada celda se escribe entera: un texto sin blancos en los extremos queda como esta, sea cual
/// sea su largo; un numero real, como diga su texto; un entero, con sus cifras y su signo; lo
/// que no es texto ni numero, tal cual; y una vacia, vacia.
pub proof fn ley_texto_de_celda(a: Seq<char>, s: Seq<char>, b: Seq<char>, n: i64, bits: u64)
    requires
        texto::todo_blanco(a),
        texto::todo_blanco(b),
        texto::sin_bordes_blancos(s),
    ensures
        texto_celda(CeldaVista::Texto(s), b) == s,
        texto_celda(CeldaVista::Texto(a + s + b), b) == s,
        texto_celda(CeldaVista::Literal(a + s + b), b) == a + s + b,
        texto_celda(CeldaVista::Real(bits), s) == s,
        texto_celda(CeldaVista::Vacia, s).len() == 0,
        texto_celda(CeldaVista::Logico(true), s) == "true"@,
        texto_celda(CeldaVista::Logico(false), s) == "false"@,
        texto::entero_leido(
            texto_celda(CeldaVista::Entero(n), s),
            i64::MIN as int,
            i64::MAX as int,
        ) == Some(n as int),
{
    texto::ley_recorte(a, s, b);
    if n >= 0 {
        texto::ley_decimal(n as nat, i64::MAX as int);
        let d = texto::decimal(n as nat);
        assert(texto::es_cifra(d[0]));
    } else {
        let m = (-n) as nat;
        texto::ley_decimal(m, i64::MAX + 1);
        let d = texto::decimal(m);
        let t = texto::decimal_signo(n as int);
        assert(t[0] == '-');
        assert(t.drop_first() =~= d);
    }
}

/// Dos celdas de texto con textos distintos, una vez recortados, se escriben distinto.
pub proof fn ley_textos_distintos(s: Seq<char>, t: Seq<char>, x: Seq<char>, y: Seq<char>)
    requires
        texto::sin_bordes_blancos(s),
        texto::sin_bordes_blancos(t),
        s != t,
    ensures
        texto_celda(CeldaVista::Texto(s), x) != texto_celda(CeldaVista::Texto(t), y),
{
    let nada = Seq::<char>::empty();
    texto::ley_recorte(nada, s, nada);
    texto::ley_recorte(nada, t, nada);
}

/// Los numeros reales se toman en el orden en que se leen: por filas y, en cada fila, de
/// izquierda a derecha; las demas celdas no cuentan.
pub proof fn ley_reales_en_orden(
    h: Seq<Seq<CeldaVista>>,
    f: Seq<CeldaVista>,
    c: CeldaVista,
    bits: u64,
)
    requires
        !(c is Real),
    ensures
        reales_fila(f.push(CeldaVista::Real(bits))) == reales_fila(f).push(Monto(bits)),
        reales_fila(f.push(c)) == reales_fila(f),
        reales_fila(seq![]).len() == 0,
        reales_hoja(h.push(f)) == reales_hoja(h) + reales_fila(f),
        reales_hoja(seq![]).len() == 0,
{
    assert(f.push(CeldaVista::Real(bits)).drop_last() =~= f);
    assert(f.push(c).drop_last() =~= f);
    assert(h.push(f).drop_last() =~= h);
}

/// El registro de una fila tiene un campo por celda y en su sitio; cada numero real lleva el
/// texto que le toca por su orden.
pub proof fn ley_registro(f: Seq<CeldaVista>, textos: Seq<Seq<char>>, desde: int, i: int)
    requires
        0 <= i < f.len(),
    ensures
        ({
            let r = registro(f, textos, desde);
            &&& r.len() == f.len()
            &&& (f[i] matches CeldaVista::Texto(s) ==> texto::sin_bordes_blancos(s) ==> r[i] == s)
            &&& (f[i] matches CeldaVista::Literal(s) ==> r[i] == s)
            &&& f[i] is Vacia ==> r[i].len() == 0
            &&& f[i] is Real ==> r[i] == textos[desde + reales_fila(f.take(i)).len()]
        }),
{
    if let CeldaVista::Texto(s) = f[i] {
        if texto::sin_bordes_blancos(s) {
            let nada = Seq::<char>::empty();
            texto::ley_recorte(nada, s, nada);
        }
    }
}

/// Los registros de una hoja son los de sus filas, en su orden, salvo las que no tienen nada
/// escrito.
pub proof fn ley_registros(h: Seq<Seq<CeldaVista>>, f: Seq<CeldaVista>, textos: Seq<Seq<char>>)
    ensures
        ({
            let r = registro(f, textos, reales_hoja(h).len() as int);
            let todos = registros(h.push(f), textos);
            &&& (exists|i: int| 0 <= i < r.len() && (#[trigger] r[i]).len() > 0) ==> todos
                == registros(h, textos).push(r)
            &&& (forall|i: int| 0 <= i < r.len() ==> (#[trigger] r[i]).len() == 0) ==> todos
                == registros(h, textos)
            &&& registros(seq![], textos).len() == 0
        }),
{
    assert(h.push(f).drop_last() =~= h);
}

/// Con que se abre cada libro: los `.xls` y `.xla` como tales, los comprimidos con el suyo y
/// los demas, probando.
pub proof fn ley_lector(ext: Option<Seq<char>>)
    ensures
        lector(Some("xls"@)) == Lector::Xls && lector(Some("xla"@)) == Lector::Xls,
        lector(Some("xlsx"@)) == Lector::Xlsx && lector(Some("xlsm"@)) == Lector::Xlsx && lector(
            Some("xlam"@),
        ) == Lector::Xlsx,
        lector(Some("xlsb"@)) == Lector::Xlsb && lector(Some("ods"@)) == Lector::Ods,
        lector(None) == Lector::Detectar,
        (ext matches Some(e) ==> e.len() < 3 || e.len() > 4 ==> lector(ext) == Lector::Detectar),
{
    reveal_strlit("xls");
    reveal_strlit("xla");
    reveal_strlit("xlsx");
    reveal_strlit("xlsm");
    reveal_strlit("xlam");
    reveal_strlit("xlsb");
    reveal_strlit("ods");
    assert("xlsx"@[3] == 'x' && "xlsm"@[3] == 'm' && "xlsb"@[3] == 'b');
    assert("xlam"@[2] == 'a' && "xlsb"@[2] == 's');
    assert("ods"@[0] == 'o' && "xls"@[0] == 'x' && "xla"@[0] == 'x');
    assert("xls"@.len() == 3 && "xla"@.len() == 3 && "ods"@.len() == 3);
    assert("xlsx"@.len() == 4 && "xlsm"@.len() == 4 && "xlam"@.len() == 4 && "xlsb"@.len() == 4);
    assert("xlsb"@ != "xlsx"@ && "xlsb"@ != "xlsm"@ && "xlsb"@ != "xlam"@);
    assert("xlsb"@ != "xls"@ && "xlsb"@ != "xla"@);
    assert("ods"@ != "xls"@ && "ods"@ != "xla"@);
    assert("xlsx"@ != "xls"@ && "xlsx"@ != "xla"@ && "xlsm"@ != "xls"@ && "xlsm"@ != "xla"@);
    assert("xlam"@ != "xls"@ && "xlam"@ != "xla"@);
    assert("ods"@ != "xlsx"@ && "ods"@ != "xlsm"@ && "ods"@ != "xlam"@ && "ods"@ != "xlsb"@);
}

/// De un libro se lee la primera de sus hojas, con todas sus celdas, y si falla se dice cual.
pub proof fn ley_primera_hoja(datos: Seq<u8>, r: Apertura, hs: Seq<Seq<char>>)
    requires
        es_hoja_xls(datos, r),
    ensures
        hojas_xls(datos) == Ok::<Seq<Seq<char>>, Seq<char>>(hs) && hs.len() > 0 ==> (rango_xls(
            datos,
            hs[0],
        ) matches Ok(c) ==> r matches Apertura::Hoja(Ok(v)) && hoja_vista(v@) == c),
        hojas_xls(datos) == Ok::<Seq<Seq<char>>, Seq<char>>(hs) && hs.len() > 0 ==> (rango_xls(
            datos,
            hs[0],
        ) matches Err(e) ==> r matches Apertura::Hoja(Err(ErrorHoja::Leer(n, m))) && n@ == hs[0]
            && m@ == e),
        hojas_xls(datos) == Ok::<Seq<Seq<char>>, Seq<char>>(hs) && hs.len() == 0 ==> r
            matches Apertura::Hoja(Err(ErrorHoja::SinHojas)),
        (hojas_xls(datos) matches Err(e) ==> r matches Apertura::Hoja(Err(ErrorHoja::Abrir(m))) && m@
            == e),
{
}

} // verus!
