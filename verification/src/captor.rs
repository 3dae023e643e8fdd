//! Descarga de dias muy extensos por tramos de articulos, y requisitos del equipo.

use crate::captura;
use crate::texto;
use vstd::prelude::*;

verus! {

// ---------------------------------------------------------------------------
// Tramos de articulos
// ---------------------------------------------------------------------------

/// Los esquemas que se prueban: dos, cuatro y ocho tramos en orden alfabetico. El
/// caracter que sigue al nueve abre el tramo de los codigos con letras.
pub open spec fn esquemas() -> Seq<Seq<(Seq<char>, Seq<char>)>> {
    seq![
        seq![(""@, "5ZZZZZ"@), ("6"@, "ZZZZZ"@)],
        seq![
            (""@, "3ZZZZZ"@),
            ("4"@, "6ZZZZZ"@),
            ("7"@, "9ZZZZZ"@),
            (":"@, "ZZZZZ"@),
        ],
        seq![
            (""@, "1ZZZZZ"@),
            ("2"@, "3ZZZZZ"@),
            ("4"@, "5ZZZZZ"@),
            ("6"@, "7ZZZZZ"@),
            ("8"@, "9ZZZZZ"@),
            (":"@, "GZZZZZ"@),
            ("H"@, "NZZZZZ"@),
            ("O"@, "ZZZZZ"@),
        ],
    ]
}

/// Tramos de un esquema.
pub open spec fn tramos(esquema: int) -> int {
    if esquema == 0 {
        2
    } else if esquema == 1 {
        4
    } else {
        8
    }
}

fn tramos_de(esquema: usize) -> (r: usize)
    ensures
        r == tramos(esquema as int),
{
    if esquema == 0 {
        2
    } else if esquema == 1 {
        4
    } else {
        8
    }
}

/// Un tramo: primer y ultimo articulo, y el sufijo con que se guarda.
pub struct Tramo {
    pub desde: String,
    pub hasta: String,
    pub sufijo: String,
}

fn extremos(esquema: usize, parte: usize) -> (r: (&'static str, &'static str))
    requires
        esquema < 3,
        parte < tramos(esquema as int),
    ensures
        (r.0@, r.1@) == esquemas()[esquema as int][parte as int],
{
    if esquema == 0 {
        if parte == 0 {
            ("", "5ZZZZZ")
        } else {
            ("6", "ZZZZZ")
        }
    } else if esquema == 1 {
        if parte == 0 {
            ("", "3ZZZZZ")
        } else if parte == 1 {
            ("4", "6ZZZZZ")
        } else if parte == 2 {
            ("7", "9ZZZZZ")
        } else {
            (":", "ZZZZZ")
        }
    } else if parte == 0 {
        ("", "1ZZZZZ")
    } else if parte == 1 {
        ("2", "3ZZZZZ")
    } else if parte == 2 {
        ("4", "5ZZZZZ")
    } else if parte == 3 {
        ("6", "7ZZZZZ")
    } else if parte == 4 {
        ("8", "9ZZZZZ")
    } else if parte == 5 {
        (":", "GZZZZZ")
    } else if parte == 6 {
        ("H", "NZZZZZ")
    } else {
        ("O", "ZZZZZ")
    }
}

pub fn tramo(esquema: usize, parte: usize) -> (r: Tramo)
    requires
        esquema < 3,
        parte < tramos(esquema as int),
    ensures
        (r.desde@, r.hasta@) == esquemas()[esquema as int][parte as int],
        r.sufijo@ == "-s"@ + texto::decimal((esquema + 1) as nat) + "_"@ + texto::decimal(
            (parte + 1) as nat,
        ),
{
    let (a, b) = extremos(esquema, parte);
    let s = texto::mas("-s".to_owned(), texto::texto_usize(esquema + 1).as_str());
    let s = texto::mas(texto::mas(s, "_"), texto::texto_usize(parte + 1).as_str());
    Tramo { desde: a.to_owned(), hasta: b.to_owned(), sufijo: s }
}

/// En que esta la descarga de un dia extenso.
#[derive(Debug, Clone, Copy, PartialEq, Eq, Structural)]
pub enum Extenso {
    /// Bajar el dia entero.
    Entero,
    /// Bajar un tramo.
    Parte { esquema: usize, parte: usize },
    /// Unir los tramos de un esquema.
    Unir { esquema: usize },
    /// Vale el libro del dia entero.
    Listo,
    /// Vale el CSV unido.
    Unido,
    /// No se pudieron unir los tramos.
    SinUnion,
    /// Ningun esquema sirvio.
    Fallido,
}

/// Bytes de lo que se pidio: del libro del dia, del CSV del tramo o del CSV unido.
/// Nada si no se pudo obtener.
pub type Tamano = Option<u64>;

pub open spec fn otro_esquema(esquema: usize) -> Extenso {
    if esquema + 1 < 3 {
        Extenso::Parte { esquema: (esquema + 1) as usize, parte: 0 }
    } else {
        Extenso::Fallido
    }
}

/// Lo que sigue en la descarga de un dia extenso. `union_falla` dice que los tramos
/// no se pudieron unir; si `estricto`, con eso se abandona.
pub open spec fn paso_extenso(
    e: Extenso,
    t: Tamano,
    union_falla: bool,
    estricto: bool,
) -> Extenso {
    match e {
        Extenso::Entero => if captura::mayor_que(t, 5000) {
            Extenso::Listo
        } else {
            Extenso::Parte { esquema: 0, parte: 0 }
        },
        Extenso::Parte { esquema, parte } => if captura::mayor_que(t, 499) {
            if parte + 1 < tramos(esquema as int) {
                Extenso::Parte { esquema, parte: (parte + 1) as usize }
            } else {
                Extenso::Unir { esquema }
            }
        } else {
            otro_esquema(esquema)
        },
        Extenso::Unir { esquema } => if union_falla && estricto {
            Extenso::SinUnion
        } else if captura::mayor_que(t, 1000) {
            Extenso::Unido
        } else {
            otro_esquema(esquema)
        },
        _ => e,
    }
}

pub open spec fn extenso_valido(e: Extenso) -> bool {
    match e {
        Extenso::Parte { esquema, parte } => esquema < 3 && parte < tramos(esquema as int),
        Extenso::Unir { esquema } => esquema < 3,
        _ => true,
    }
}

fn esquema_siguiente(esquema: usize) -> (r: Extenso)
    requires
        esquema < 3,
    ensures
        r == otro_esquema(esquema),
{
    if esquema + 1 < 3 {
        Extenso::Parte { esquema: esquema + 1, parte: 0 }
    } else {
        Extenso::Fallido
    }
}

pub fn seguir_extenso(e: Extenso, t: Tamano, union_falla: bool, estricto: bool) -> (r: Extenso)
    requires
        extenso_valido(e),
    ensures
        r == paso_extenso(e, t, union_falla, estricto),
        extenso_valido(r),
{
    match e {
        Extenso::Entero => if captura::es_mayor_que(t, 5000) {
            Extenso::Listo
        } else {
            Extenso::Parte { esquema: 0, parte: 0 }
        },
        Extenso::Parte { esquema, parte } => if captura::es_mayor_que(t, 499) {
            if parte + 1 < tramos_de(esquema) {
                Extenso::Parte { esquema, parte: parte + 1 }
            } else {
                Extenso::Unir { esquema }
            }
        } else {
            esquema_siguiente(esquema)
        },
        Extenso::Unir { esquema } => if union_falla && estricto {
            Extenso::SinUnion
        } else if captura::es_mayor_que(t, 1000) {
            Extenso::Unido
        } else {
            esquema_siguiente(esquema)
        },
        _ => e,
    }
}

/// Descargas y uniones que quedan, a lo sumo.
pub open spec fn pasos_extenso(e: Extenso) -> int {
    match e {
        Extenso::Entero => 28,
        Extenso::Parte { esquema, parte } => (2 - esquema) * 9 + tramos(esquema as int) - parte + 1,
        Extenso::Unir { esquema } => (2 - esquema) * 9 + 1,
        _ => 0,
    }
}

/// La descarga de un dia extenso acaba siempre.
pub proof fn ley_extenso_acaba(e: Extenso, t: Tamano, union_falla: bool, estricto: bool)
    requires
        extenso_valido(e),
        e is Entero || e is Parte || e is Unir,
    ensures
        extenso_valido(paso_extenso(e, t, union_falla, estricto)),
        0 <= pasos_extenso(paso_extenso(e, t, union_falla, estricto)) < pasos_extenso(e),
{
}

/// Los tramos de un esquema se unen solo tras bajar el ultimo, y a cada tramo se
/// llega solo tras bajar el anterior: nunca se une un dia al que le falte un tramo.
pub proof fn ley_tramos_completos(e: Extenso, t: Tamano, union_falla: bool, estricto: bool)
    requires
        extenso_valido(e),
    ensures
        paso_extenso(e, t, union_falla, estricto) matches Extenso::Unir { esquema } ==> e
            == (Extenso::Unir { esquema }) || (e == (Extenso::Parte {
            esquema,
            parte: (tramos(esquema as int) - 1) as usize,
        }) && t is Some),
        paso_extenso(e, t, union_falla, estricto) matches Extenso::Parte { esquema, parte } ==> (
        parte > 0 ==> e == (Extenso::Parte { esquema, parte: (parte - 1) as usize }) && t is Some),
        forall|s: int| 0 <= s < 3 ==> #[trigger] esquemas()[s].len() == tramos(s),
{
    assert(esquemas()[0].len() == 2);
    assert(esquemas()[1].len() == 4);
    assert(esquemas()[2].len() == 8);
}

// ---------------------------------------------------------------------------
// Requisitos
// ---------------------------------------------------------------------------

/// Lo que hace falta para capturar: credenciales y el navegador.
pub fn preflight_checks(user: &str, pass: &str, navegador: bool) -> (r: Result<(), String>)
    ensures
        if user@.len() == 0 || pass@.len() == 0 {
            r matches Err(m) && m@
                == "Faltan credenciales del intranet: configuralas en Configuracion (engranaje) o en el archivo .env."@
        } else if !navegador {
            r matches Err(m) && m@
                == "Google Chrome no esta instalado en esta maquina (requerido para la descarga)."@
        } else {
            r is Ok
        },
{
    if user.unicode_len() == 0 || pass.unicode_len() == 0 {
        return Err(
            "Faltan credenciales del intranet: configuralas en Configuracion (engranaje) o en el archivo .env.".to_owned(),
        );
    }
    if !navegador {
        return Err(
            "Google Chrome no esta instalado en esta maquina (requerido para la descarga).".to_owned(),
        );
    }
    Ok(())
}

/// Donde puede estar el navegador: las dos carpetas de programas y la del usuario,
/// si se conoce.
pub fn rutas_navegador(local: Option<&str>) -> (r: Vec<String>)
    ensures
        texto::textos(r@) == seq![
            "C:\\Program Files\\Google\\Chrome\\Application\\chrome.exe"@,
            "C:\\Program Files (x86)\\Google\\Chrome\\Application\\chrome.exe"@,
        ] + (match local {
            Some(d) => seq![d@ + "\\Google\\Chrome\\Application\\chrome.exe"@],
            None => seq![],
        }),
{
    let mut r: Vec<String> = vec![
        "C:\\Program Files\\Google\\Chrome\\Application\\chrome.exe".to_owned(),
        "C:\\Program Files (x86)\\Google\\Chrome\\Application\\chrome.exe".to_owned(),
    ];
    match local {
        Some(d) => {
            r.push(texto::mas(d.to_owned(), "\\Google\\Chrome\\Application\\chrome.exe"));
            assert(texto::textos(r@) =~= seq![
                "C:\\Program Files\\Google\\Chrome\\Application\\chrome.exe"@,
                "C:\\Program Files (x86)\\Google\\Chrome\\Application\\chrome.exe"@,
            ] + seq![d@ + "\\Google\\Chrome\\Application\\chrome.exe"@]);
        },
        None => {
            assert(texto::textos(r@) =~= seq![
                "C:\\Program Files\\Google\\Chrome\\Application\\chrome.exe"@,
                "C:\\Program Files (x86)\\Google\\Chrome\\Application\\chrome.exe"@,
            ] + Seq::<Seq<char>>::empty());
        },
    }
    r
}

/// La tabla que saca el navegador de la pagina tiene texto bastante: cien bytes.
pub fn es_tabla(csv: &str) -> (r: bool)
    ensures
        r == (texto::bytes_de(csv@) >= 100),
{
    texto::largo_bytes(csv) >= 100
}

/// Que hacer mientras carga el informe en el navegador.
#[derive(Debug, Clone, Copy, PartialEq, Eq, Structural)]
pub enum Sondeo {
    /// La sesion caduco: entrar de nuevo y volver a abrir el informe.
    Entrar,
    /// El informe esta.
    Listo,
    Esperar,
}

/// Veces que se mira si el informe ha cargado.
pub const SONDEOS: u32 = 12;

pub open spec fn sondeo(url: Seq<char>, largo: Seq<char>) -> Sondeo {
    if texto::contiene(url, "login"@) {
        Sondeo::Entrar
    } else {
        match texto::natural_leido(largo, usize::MAX as int) {
            Some(n) => if n > 1000 {
                Sondeo::Listo
            } else {
                Sondeo::Esperar
            },
            None => Sondeo::Esperar,
        }
    }
}

/// Que hacer segun la direccion abierta y los caracteres que tiene la pagina.
pub fn sondear(url: &str, largo: &str) -> (r: Sondeo)
    ensures
        r == sondeo(url@, largo@),
{
    proof {
        reveal_strlit("login");
    }
    if texto::contiene_texto(url, "login") {
        return Sondeo::Entrar;
    }
    match texto::leer_natural(largo, usize::MAX as u64) {
        Some(n) => if n > 1000 {
            Sondeo::Listo
        } else {
            Sondeo::Esperar
        },
        None => Sondeo::Esperar,
    }
}

/// Los tramos de un esquema cubren los codigos sin hueco: el primero empieza por el principio,
/// el ultimo llega al final y cada uno empieza por el caracter que sigue al ultimo del anterior.
pub proof fn ley_tramos_contiguos(s: int, k: int)
    requires
        0 <= s < 3,
        0 <= k < tramos(s),
    ensures
        ({
            let t = esquemas()[s];
            &&& t.len() == tramos(s)
            &&& k == 0 ==> t[k].0.len() == 0
            &&& k > 0 ==> t[k].0.len() == 1 && t[k - 1].1.len() == 6 && t[k].0[0] as u32
                == t[k - 1].1[0] as u32 + 1
            &&& k > 0 ==> forall|i: int| 1 <= i < 6 ==> #[trigger] t[k - 1].1[i] == 'Z'
            &&& k == tramos(s) - 1 ==> t[k].1 == "ZZZZZ"@
        }),
        tramos(0) == 2 && tramos(1) == 4 && tramos(2) == 8,
{
    reveal_strlit("");
    reveal_strlit("1ZZZZZ");
    reveal_strlit("3ZZZZZ");
    reveal_strlit("5ZZZZZ");
    reveal_strlit("6ZZZZZ");
    reveal_strlit("7ZZZZZ");
    reveal_strlit("9ZZZZZ");
    reveal_strlit("GZZZZZ");
    reveal_strlit("NZZZZZ");
    reveal_strlit("2");
    reveal_strlit("4");
    reveal_strlit("6");
    reveal_strlit("7");
    reveal_strlit("8");
    reveal_strlit(":");
    reveal_strlit("H");
    reveal_strlit("O");
}

/// El dia vale entero si pasa de cinco mil bytes; un tramo, si llega a quinientos, y entonces se
/// sigue con el siguiente o se unen; lo unido, si pasa de mil. Lo que no vale lleva al esquema
/// siguiente, desde su primer tramo, y tras el tercero se da por fallido. Si no se pudieron
/// unir, en el modo estricto se abandona.
pub proof fn ley_extenso(e: Extenso, t: Tamano, union_falla: bool, estricto: bool)
    requires
        extenso_valido(e),
    ensures
        ({
            let r = paso_extenso(e, t, union_falla, estricto);
            let n = match t {
                Some(b) => b as int,
                None => 0,
            };
            &&& e == Extenso::Entero ==> r == (if n > 5000 {
                Extenso::Listo
            } else {
                Extenso::Parte { esquema: 0, parte: 0 }
            })
            &&& (e matches Extenso::Parte { esquema, parte } ==> n >= 500 ==> (if parte + 1
                == tramos(esquema as int) {
                r == (Extenso::Unir { esquema })
            } else {
                r == (Extenso::Parte { esquema, parte: (parte + 1) as usize })
            }))
            &&& (e matches Extenso::Parte { esquema, .. } ==> n < 500 ==> (if esquema == 2 {
                r == Extenso::Fallido
            } else {
                r == (Extenso::Parte { esquema: (esquema + 1) as usize, parte: 0 })
            }))
            &&& (e matches Extenso::Unir { esquema } ==> !(union_falla && estricto) && n <= 1000
                ==> (if esquema == 2 {
                r == Extenso::Fallido
            } else {
                r == (Extenso::Parte { esquema: (esquema + 1) as usize, parte: 0 })
            }))
            &&& e is Unir && union_falla && estricto ==> r == Extenso::SinUnion
            &&& e is Unir && !(union_falla && estricto) && n > 1000 ==> r == Extenso::Unido
            &&& !(e is Entero || e is Parte || e is Unir) ==> r == e
        }),
{
}

/// Si la pagina es la de acceso se vuelve a entrar; si no, el informe esta cuando pasa de mil
/// caracteres.
pub proof fn ley_sondeo(a: Seq<char>, b: Seq<char>, n: nat)
    requires
        n <= usize::MAX,
    ensures
        sondeo(a + "login"@ + b, texto::decimal(n)) == Sondeo::Entrar,
        !texto::contiene(a, "login"@) ==> sondeo(a, texto::decimal(n)) == (if n > 1000 {
            Sondeo::Listo
        } else {
            Sondeo::Esperar
        }),
        sondeo(a, b) == Sondeo::Entrar ==> texto::contiene(a, "login"@),
{
    texto::ley_contiene(a, "login"@, b);
    texto::ley_decimal(n, usize::MAX as int);
}

} // verus!
