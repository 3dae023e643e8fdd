//! Mensajes que ve quien captura.

use crate::config;
use crate::texto;
use vstd::prelude::*;

verus! {

/// Cuando se abandona un lote porque el servidor no responde.
pub const MENSAJE_CAIDO: &'static str = "Servidor intranet caido (3 meses seguidos sin respuesta). Reintente en 30-60 min o en horario laboral.";

pub const MENSAJE_ABORTADA: &'static str = "Captura abortada por el usuario";

pub const MENSAJE_SIN_PENDIENTES: &'static str = "No hay datos pendientes";

/// Al empezar, con los elementos que se estiman.
pub fn mensaje_inicio(estimados: usize) -> (r: String)
    ensures
        r@ == "Captura iniciada \u{2014} "@ + texto::decimal(estimados as nat) + " item(s) estimado(s)"@,
{
    let r = "Captura iniciada \u{2014} ".to_owned();
    let r = texto::mas(r, texto::texto_usize(estimados).as_str());
    texto::mas(r, " item(s) estimado(s)")
}

/// Al pedir un elemento.
pub fn mensaje_descargando(label: &str) -> (r: String)
    ensures
        r@ == "Descargando "@ + label@ + "..."@,
{
    let r = "Descargando ".to_owned();
    let r = texto::mas(r, label);
    texto::mas(r, "...")
}

/// Lo que se hace con un elemento, con su lugar en el lote.
pub fn mensaje_elemento(i: usize, total: usize, que: &str, label: &str) -> (r: String)
    ensures
        r@ == "["@ + texto::decimal(i as nat) + "/"@ + texto::decimal(total as nat) + "] "@ + que@ + " "@ + label@,
{
    let r = "[".to_owned();
    let r = texto::mas(r, texto::texto_usize(i).as_str());
    let r = texto::mas(r, "/");
    let r = texto::mas(r, texto::texto_usize(total).as_str());
    let r = texto::mas(r, "] ");
    let r = texto::mas(r, que);
    let r = texto::mas(r, " ");
    texto::mas(r, label)
}

/// Cada intento de bajar un elemento.
pub fn mensaje_intento(intento: u32, label: &str) -> (r: String)
    ensures
        r@ == "Intento "@ + texto::decimal(intento as nat) + "/3 \u{2014} "@ + label@,
{
    let r = "Intento ".to_owned();
    let r = texto::mas(r, texto::texto_u64(intento as u64).as_str());
    let r = texto::mas(r, "/3 \u{2014} ");
    texto::mas(r, label)
}

/// El elemento en curso, con el intento.
pub fn elemento_intento(label: &str, intento: u32) -> (r: String)
    ensures
        r@ == label@ + " (intento "@ + texto::decimal(intento as nat) + ")"@,
{
    let r = label.to_owned();
    let r = texto::mas(r, " (intento ");
    let r = texto::mas(r, texto::texto_u64(intento as u64).as_str());
    texto::mas(r, ")")
}

/// Cuando un libro no se convierte.
pub fn mensaje_conversion(label: &str, causa: &str) -> (r: String)
    ensures
        r@ == "Error convirtiendo "@ + label@ + ": "@ + causa@,
{
    let r = "Error convirtiendo ".to_owned();
    let r = texto::mas(r, label);
    let r = texto::mas(r, ": ");
    texto::mas(r, causa)
}

/// Al leer un elemento bajado.
pub fn mensaje_parseando(label: &str) -> (r: String)
    ensures
        r@ == "Parseando "@ + label@,
{
    let r = "Parseando ".to_owned();
    texto::mas(r, label)
}

/// Tras guardar un elemento.
pub fn mensaje_insertadas(filas: usize) -> (r: String)
    ensures
        r@ == "Insertadas "@ + texto::decimal(filas as nat) + " filas"@,
{
    let r = "Insertadas ".to_owned();
    let r = texto::mas(r, texto::texto_usize(filas).as_str());
    texto::mas(r, " filas")
}

/// Tras guardar un elemento, con su lugar en el lote.
pub fn mensaje_filas(i: usize, total: usize, filas: usize) -> (r: String)
    ensures
        r@ == "["@ + texto::decimal(i as nat) + "/"@ + texto::decimal(total as nat) + "] "@ + texto::decimal(filas as nat) + " filas insertadas"@,
{
    let r = "[".to_owned();
    let r = texto::mas(r, texto::texto_usize(i).as_str());
    let r = texto::mas(r, "/");
    let r = texto::mas(r, texto::texto_usize(total).as_str());
    let r = texto::mas(r, "] ");
    let r = texto::mas(r, texto::texto_usize(filas).as_str());
    texto::mas(r, " filas insertadas")
}

/// Un elemento sin respuesta del servidor.
pub fn mensaje_sin_respuesta(label: &str, seguidos: usize) -> (r: String)
    ensures
        r@ == label@ + ": servidor sin respuesta ("@ + texto::decimal(seguidos as nat) + "/3)"@,
{
    let r = label.to_owned();
    let r = texto::mas(r, ": servidor sin respuesta (");
    let r = texto::mas(r, texto::texto_usize(seguidos).as_str());
    texto::mas(r, "/3)")
}

/// Cuando se deja de probar dia a dia.
pub fn mensaje_no_responde(label: &str, dias: usize) -> (r: String)
    ensures
        r@ == label@ + ": servidor no responde tras "@ + texto::decimal(dias as nat) + " d\u{ed}as seguidos"@,
{
    let r = label.to_owned();
    let r = texto::mas(r, ": servidor no responde tras ");
    let r = texto::mas(r, texto::texto_usize(dias).as_str());
    texto::mas(r, " d\u{ed}as seguidos")
}

/// Al acabar el lote, con lo que tardo.
pub fn mensaje_completado(reloj: &str) -> (r: String)
    ensures
        r@ == "Completado en "@ + reloj@,
{
    let r = "Completado en ".to_owned();
    texto::mas(r, reloj)
}

/// Cuando no se entra por ninguna via.
pub fn mensaje_login_fallido(http: &str, navegador: &str) -> (r: String)
    ensures
        r@ == "Login fallido (HTTP y Chrome): "@ + http@ + " / "@ + navegador@,
{
    let r = "Login fallido (HTTP y Chrome): ".to_owned();
    let r = texto::mas(r, http);
    let r = texto::mas(r, " / ");
    texto::mas(r, navegador)
}

/// Cuando no se puede preparar la conexion.
pub fn mensaje_sin_cliente(causa: &str) -> (r: String)
    ensures
        r@ == "No se pudo crear cliente HTTP: "@ + causa@,
{
    let r = "No se pudo crear cliente HTTP: ".to_owned();
    texto::mas(r, causa)
}

/// El comienzo de un mensaje, hasta la primera raya.
pub open spec fn hasta_raya(s: Seq<char>) -> Seq<char> {
    match texto::indice(s, " \u{2014} "@, 0) {
        Some(i) => s.take(i),
        None => s,
    }
}

fn recortar_raya(s: &str) -> (r: String)
    ensures
        r@ == hasta_raya(s@),
{
    proof {
        reveal_strlit(" \u{2014} ");
        texto::lema_indice(s@, " \u{2014} "@, 0);
    }
    match texto::buscar(s, " \u{2014} ") {
        Some(i) => {
            let r = texto::cadena(&texto::caracteres(s), 0, i);
            assert(r@ =~= s@.take(i as int));
            r
        },
        None => s.to_owned(),
    }
}

/// El mensaje con el tiempo que queda, sobre lo que decia el anterior.
pub fn mensaje_quedan(hechos: usize, total: usize, previo: &str, eta: u64) -> (r: String)
    ensures
        r@ == "["@ + texto::decimal(hechos as nat) + "/"@ + texto::decimal(total as nat) + "] "@
            + hasta_raya(previo@) + " \u{2014} quedan ~"@ + texto::decimal((eta / 60) as nat) + "m"@
            + texto::decimal((eta % 60) as nat) + "s"@,
{
    let r = texto::mas("[".to_owned(), texto::texto_usize(hechos).as_str());
    let r = texto::mas(texto::mas(r, "/"), texto::texto_usize(total).as_str());
    let r = texto::mas(texto::mas(r, "] "), recortar_raya(previo).as_str());
    let r = texto::mas(r, " \u{2014} quedan ~");
    let r = texto::mas(r, texto::texto_u64(eta / 60).as_str());
    let r = texto::mas(texto::mas(r, "m"), texto::texto_u64(eta % 60).as_str());
    texto::mas(r, "s")
}

/// Los dos primeros fallos, con puntos suspensivos si hay mas.
pub open spec fn resumen_fallos(fail: Seq<(Seq<char>, Seq<char>)>) -> Seq<char> {
    if fail.len() == 0 {
        seq![]
    } else if fail.len() == 1 {
        fail[0].0 + ": "@ + fail[0].1
    } else {
        fail[0].0 + ": "@ + fail[0].1 + "; "@ + fail[1].0 + ": "@ + fail[1].1 + (if fail.len() > 2 {
            " ..."@
        } else {
            seq![]
        })
    }
}

/// Cuantos elementos de un lote salieron bien y cuantos mal.
pub open spec fn recuento(ok: int, fail: int, total: int) -> Seq<char> {
    "Listo \u{2014} "@ + texto::decimal(ok as nat) + "/"@ + texto::decimal(total as nat) + " ok, "@
        + texto::decimal(fail as nat) + "/"@ + texto::decimal(total as nat) + " fail"@
}

pub fn mensaje_recuento(ok: usize, fail: usize, total: usize) -> (r: String)
    ensures
        r@ == recuento(ok as int, fail as int, total as int),
{
    let t = texto::texto_usize(total);
    let r = texto::mas("Listo \u{2014} ".to_owned(), texto::texto_usize(ok).as_str());
    let r = texto::mas(texto::mas(texto::mas(r, "/"), t.as_str()), " ok, ");
    let r = texto::mas(texto::mas(r, texto::texto_usize(fail).as_str()), "/");
    texto::mas(texto::mas(r, t.as_str()), " fail")
}

pub open spec fn mensaje_listo(
    ok: int,
    fail: Seq<(Seq<char>, Seq<char>)>,
    total: int,
) -> Seq<char> {
    let base = recuento(ok, fail.len() as int, total);
    if resumen_fallos(fail).len() == 0 {
        base
    } else {
        base + " \u{2014} "@ + resumen_fallos(fail)
    }
}

fn resumir_fallos(fail: &Vec<(String, String)>) -> (r: String)
    ensures
        r@ == resumen_fallos(config::pares(fail@)),
{
    let ghost fs = config::pares(fail@);
    let n: usize = fail.len();
    if n == 0 {
        return String::new();
    }
    assert(fs[0] == (fail@[0].0@, fail@[0].1@));
    let r = texto::mas(texto::mas(fail[0].0.clone(), ": "), fail[0].1.as_str());
    if n == 1 {
        return r;
    }
    assert(fs[1] == (fail@[1].0@, fail@[1].1@));
    let r = texto::mas(texto::mas(r, "; "), fail[1].0.as_str());
    let r = texto::mas(texto::mas(r, ": "), fail[1].1.as_str());
    if n > 2 {
        texto::mas(r, " ...")
    } else {
        assert(r@ =~= resumen_fallos(fs));
        r
    }
}

/// El mensaje con que acaba un lote.
pub fn mensaje_final(ok: usize, fail: &Vec<(String, String)>, total: usize) -> (r: String)
    ensures
        r@ == mensaje_listo(ok as int, config::pares(fail@), total as int),
{
    assert(config::pares(fail@).len() == fail@.len());
    let r = mensaje_recuento(ok, fail.len(), total);
    let d = resumir_fallos(fail);
    if d.as_str().unicode_len() == 0 {
        r
    } else {
        texto::mas(texto::mas(r, " \u{2014} "), d.as_str())
    }
}

/// El comienzo de un mensaje es lo que va delante de la primera raya; sin raya, todo.
pub proof fn ley_hasta_raya(a: Seq<char>, b: Seq<char>)
    requires
        !texto::contiene(a + " \u{2014}"@, " \u{2014} "@),
    ensures
        hasta_raya(a + " \u{2014} "@ + b) == a,
        hasta_raya(a) == a,
{
    reveal_strlit(" \u{2014}");
    reveal_strlit(" \u{2014} ");
    let p = " \u{2014} "@;
    let q = " \u{2014}"@;
    let s = a + p + b;
    let t = a + q;
    texto::lema_indice(s, p, 0);
    texto::ley_contiene(a, p, b);
    let i = texto::indice(s, p, 0)->0;
    if i < a.len() {
        if i + 3 <= t.len() {
            assert(s.subrange(i, i + 3) =~= t.subrange(i, i + 3));
            assert(texto::aparece(t, p, i));
        }
    }
    assert(i == a.len());
    assert(s.take(i) =~= a);
    texto::lema_indice(a, p, 0);
    if let Some(k) = texto::indice(a, p, 0) {
        assert(t.subrange(k, k + 3) =~= a.subrange(k, k + 3));
        assert(texto::aparece(t, p, k));
    }
}

/// El resumen nombra los dos primeros fallos, con su causa, y dice si hay mas.
pub proof fn ley_resumen(fail: Seq<(Seq<char>, Seq<char>)>)
    ensures
        fail.len() == 0 ==> resumen_fallos(fail).len() == 0,
        fail.len() == 1 ==> resumen_fallos(fail) == fail[0].0 + ": "@ + fail[0].1,
        fail.len() == 2 ==> resumen_fallos(fail) == resumen_fallos(fail.take(1)) + "; "@
            + resumen_fallos(fail.skip(1)),
        fail.len() > 2 ==> resumen_fallos(fail) == resumen_fallos(fail.take(2)) + " ..."@,
        fail.len() > 0 ==> resumen_fallos(fail).len() > 0,
{
    reveal_strlit(": ");
    if fail.len() > 2 {
        let dos = fail.take(2);
        assert(dos[0] == fail[0] && dos[1] == fail[1]);
        let a = fail[0].0 + ": "@ + fail[0].1 + "; "@ + fail[1].0 + ": "@ + fail[1].1;
        assert(a + Seq::<char>::empty() =~= a);
        assert(resumen_fallos(dos) == a);
    } else if fail.len() == 2 {
        let uno = fail.take(1);
        let otro = fail.skip(1);
        assert(uno[0] == fail[0] && otro[0] == fail[1]);
        let a = fail[0].0 + ": "@ + fail[0].1;
        let b = fail[1].0 + ": "@ + fail[1].1;
        assert(a + "; "@ + fail[1].0 + ": "@ + fail[1].1 + Seq::<char>::empty() =~= a + "; "@ + b);
    }
}

/// El mensaje con que acaba un lote dice los que salieron bien y mal, de cuantos, y detras los
/// fallos, si los hay.
pub proof fn ley_mensaje_final(ok: int, fail: Seq<(Seq<char>, Seq<char>)>, total: int)
    requires
        0 <= ok,
        0 <= total,
    ensures
        ({
            let n = fail.len() as int;
            let bien = texto::decimal(ok as nat) + "/"@ + texto::decimal(total as nat) + " ok, "@;
            let mal = texto::decimal(n as nat) + "/"@ + texto::decimal(total as nat) + " fail"@;
            &&& recuento(ok, n, total) == "Listo \u{2014} "@ + bien + mal
            &&& n == 0 ==> mensaje_listo(ok, fail, total) == recuento(ok, n, total)
            &&& n > 0 ==> mensaje_listo(ok, fail, total) == recuento(ok, n, total) + " \u{2014} "@
                + resumen_fallos(fail)
        }),
{
    ley_resumen(fail);
    let n = fail.len() as int;
    let bien = texto::decimal(ok as nat) + "/"@ + texto::decimal(total as nat) + " ok, "@;
    let mal = texto::decimal(n as nat) + "/"@ + texto::decimal(total as nat) + " fail"@;
    assert(recuento(ok, n, total) =~= "Listo \u{2014} "@ + bien + mal);
}

} // verus!
