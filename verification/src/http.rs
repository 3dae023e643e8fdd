//! Paginas de la intranet: campos ocultos, direcciones de exportacion, validez de
//! lo descargado y tablas HTML.

use crate::config;
use crate::tabla;
use crate::texto;
use vstd::prelude::*;

verus! {

// ---------------------------------------------------------------------------
// Tablas HTML
// ---------------------------------------------------------------------------

/// Las entidades HTML de uso comun, decodificadas una tras otra.
pub open spec fn sin_entidades(s: Seq<char>) -> Seq<char> {
    let s = texto::reemplazado(s, "&nbsp;"@, " "@);
    let s = texto::reemplazado(s, "&amp;"@, "&"@);
    let s = texto::reemplazado(s, "&lt;"@, "<"@);
    let s = texto::reemplazado(s, "&gt;"@, ">"@);
    let s = texto::reemplazado(s, "&quot;"@, "\""@);
    texto::reemplazado(s, "&#39;"@, "'"@)
}

/// El texto de una celda: sin entidades, con un solo espacio entre palabras y sin
/// comas.
pub open spec fn texto_html(s: Seq<char>) -> Seq<char> {
    texto::reemplazado(
        texto::unido(texto::palabras(sin_entidades(texto::recortado(s))), " "@),
        seq![','],
        " "@,
    )
}

/// Donde empieza la siguiente celda: en la primera `<td` o en la primera `<th`, la que este
/// antes.
pub open spec fn inicio_celda(fila: Seq<char>, desde: int) -> Option<int> {
    match (texto::indice(fila, "<td"@, desde), texto::indice(fila, "<th"@, desde)) {
        (Some(i), Some(j)) => if i < j {
            Some(i)
        } else {
            Some(j)
        },
        (Some(i), None) => Some(i),
        (None, o) => o,
    }
}

pub open spec fn cierre_celda(fila: Seq<char>, i: int) -> Seq<char> {
    if texto::aparece(fila, "<td"@, i) {
        "</td>"@
    } else {
        "</th>"@
    }
}

/// Los extremos del contenido de la siguiente celda de una fila, si esta entera.
pub open spec fn siguiente_celda(fila: Seq<char>, desde: int) -> Option<(int, int)> {
    match inicio_celda(fila, desde) {
        None => None,
        Some(i) => match texto::indice(fila, seq!['>'], i) {
            None => None,
            Some(j) => match texto::indice(fila, cierre_celda(fila, i), j + 1) {
                None => None,
                Some(k) => Some((j + 1, k)),
            },
        },
    }
}

pub proof fn lema_siguiente_celda(fila: Seq<char>, desde: int)
    requires
        0 <= desde,
    ensures
        siguiente_celda(fila, desde) matches Some(p) ==> desde < p.0 <= p.1 && p.1 + 5
            <= fila.len(),
{
    reveal_strlit("<td");
    reveal_strlit("<th");
    reveal_strlit("</td>");
    reveal_strlit("</th>");
    texto::lema_indice(fila, "<td"@, desde);
    texto::lema_indice(fila, "<th"@, desde);
    if let Some(i) = inicio_celda(fila, desde) {
        texto::lema_indice(fila, seq!['>'], i);
        if let Some(j) = texto::indice(fila, seq!['>'], i) {
            texto::lema_indice(fila, cierre_celda(fila, i), j + 1);
        }
    }
}

/// Los textos de las celdas de una fila, desde una posicion.
pub open spec fn celdas(fila: Seq<char>, desde: int) -> Seq<Seq<char>>
    decreases fila.len() - desde,
{
    if desde < 0 {
        seq![]
    } else {
        proof {
            lema_siguiente_celda(fila, desde);
        }
        match siguiente_celda(fila, desde) {
            Some(p) => seq![texto_html(fila.subrange(p.0, p.1))] + celdas(fila, p.1 + 5),
            None => seq![],
        }
    }
}

/// Los extremos del siguiente trozo que va de la marca `abre` a la marca `cierra`.
pub open spec fn siguiente_trozo(
    s: Seq<char>,
    abre: Seq<char>,
    cierra: Seq<char>,
    desde: int,
) -> Option<(int, int)> {
    match texto::indice(s, abre, desde) {
        None => None,
        Some(i) => match texto::indice(s, cierra, i) {
            None => None,
            Some(j) => Some((i, j)),
        },
    }
}

pub proof fn lema_siguiente_trozo(s: Seq<char>, abre: Seq<char>, cierra: Seq<char>, desde: int)
    requires
        0 <= desde,
        abre.len() > 1,
        cierra.len() > 1,
        abre[1] != cierra[1],
    ensures
        siguiente_trozo(s, abre, cierra, desde) matches Some(p) ==> desde <= p.0 < p.1 && p.1
            + cierra.len() <= s.len(),
{
    texto::lema_indice(s, abre, desde);
    if let Some(i) = texto::indice(s, abre, desde) {
        texto::lema_indice(s, cierra, i);
        if texto::aparece(s, cierra, i) {
            assert(s.subrange(i, i + abre.len())[1] == s[i + 1]);
            assert(s.subrange(i, i + cierra.len())[1] == s[i + 1]);
        }
    }
}

/// Las filas con celdas de una tabla, desde una posicion.
pub open spec fn filas(tabla: Seq<char>, desde: int) -> Seq<Seq<Seq<char>>>
    decreases tabla.len() - desde,
{
    if desde < 0 {
        seq![]
    } else {
        proof {
            reveal_strlit("<tr");
            reveal_strlit("</tr>");
            lema_siguiente_trozo(tabla, "<tr"@, "</tr>"@, desde);
        }
        match siguiente_trozo(tabla, "<tr"@, "</tr>"@, desde) {
            None => seq![],
            Some(p) => {
                let cs = celdas(tabla.subrange(p.0, p.1), 0);
                if cs.len() == 0 {
                    filas(tabla, p.1 + 5)
                } else {
                    seq![cs] + filas(tabla, p.1 + 5)
                }
            },
        }
    }
}

/// Las tablas de una pagina, desde una posicion.
pub open spec fn tablas(html: Seq<char>, desde: int) -> Seq<Seq<char>>
    decreases html.len() - desde,
{
    if desde < 0 {
        seq![]
    } else {
        proof {
            reveal_strlit("<table");
            reveal_strlit("</table>");
            lema_siguiente_trozo(html, "<table"@, "</table>"@, desde);
        }
        match siguiente_trozo(html, "<table"@, "</table>"@, desde) {
            None => seq![],
            Some(p) => seq![html.subrange(p.0, p.1)] + tablas(html, p.1),
        }
    }
}

/// Filas a partir de las cuales ya no se busca una tabla mayor.
pub const FILAS_SUFICIENTES: usize = 50_000;

/// Las filas de la tabla con mas filas entre `mejor` y las de `ts`; la primera, si
/// hay varias. No se mira mas alla de la primera que pasa de las suficientes.
pub open spec fn mayor(ts: Seq<Seq<char>>, mejor: Seq<Seq<Seq<char>>>) -> Seq<Seq<Seq<char>>>
    decreases ts.len(),
{
    if ts.len() == 0 {
        mejor
    } else {
        let fs = filas(ts[0], 0);
        let m = if fs.len() > mejor.len() {
            fs
        } else {
            mejor
        };
        if m.len() > FILAS_SUFICIENTES {
            m
        } else {
            mayor(ts.drop_first(), m)
        }
    }
}

/// Las filas como lineas de campos separados por comas.
pub open spec fn lineas_csv(fs: Seq<Seq<Seq<char>>>) -> Seq<char>
    decreases fs.len(),
{
    if fs.len() == 0 {
        seq![]
    } else {
        lineas_csv(fs.drop_last()) + texto::unido(fs.last(), ","@) + "\n"@
    }
}

/// La tabla con mas filas de una pagina, en CSV.
pub open spec fn tabla_csv(html: Seq<char>) -> Seq<char> {
    lineas_csv(mayor(tablas(texto::minusculas(html), 0), seq![]))
}

fn trozo(v: &Vec<char>, a: usize, b: usize) -> (r: Vec<char>)
    requires
        a <= b <= v@.len(),
    ensures
        r@ == v@.subrange(a as int, b as int),
{
    let mut r: Vec<char> = Vec::new();
    let mut i: usize = a;
    while i < b
        invariant
            a <= i <= b <= v@.len(),
            r@ == v@.subrange(a as int, i as int),
        decreases b - i,
    {
        r.push(v[i]);
        i = i + 1;
        assert(r@ =~= v@.subrange(a as int, i as int));
    }
    r
}

fn decode_entities(s: &str) -> (r: String)
    ensures
        r@ == sin_entidades(s@),
{
    proof {
        reveal_strlit("&nbsp;");
        reveal_strlit("&amp;");
        reveal_strlit("&lt;");
        reveal_strlit("&gt;");
        reveal_strlit("&quot;");
        reveal_strlit("&#39;");
    }
    let s = texto::reemplazar(s, "&nbsp;", " ");
    let s = texto::reemplazar(s.as_str(), "&amp;", "&");
    let s = texto::reemplazar(s.as_str(), "&lt;", "<");
    let s = texto::reemplazar(s.as_str(), "&gt;", ">");
    let s = texto::reemplazar(s.as_str(), "&quot;", "\"");
    texto::reemplazar(s.as_str(), "&#39;", "'")
}

fn texto_de_html(s: &str) -> (r: String)
    ensures
        r@ == texto_html(s@),
{
    proof {
        reveal_strlit(",");
        assert(","@ =~= seq![',']);
    }
    let t = texto::recortar(s);
    let t = decode_entities(t.as_str());
    let ps = texto::separar_palabras(t.as_str());
    let t = texto::unir(&ps, " ");
    texto::reemplazar(t.as_str(), ",", " ")
}

fn celda_siguiente(fila: &Vec<char>, desde: usize) -> (r: Option<(usize, usize)>)
    ensures
        match r {
            Some(p) => siguiente_celda(fila@, desde as int) == Some((p.0 as int, p.1 as int)),
            None => siguiente_celda(fila@, desde as int) is None,
        },
{
    proof {
        reveal_strlit("<td");
        reveal_strlit("<th");
        reveal_strlit("</td>");
        reveal_strlit("</th>");
        reveal_strlit(">");
        assert(">"@ =~= seq!['>']);
        lema_siguiente_celda(fila@, desde as int);
        texto::lema_indice(fila@, "<td"@, desde as int);
        texto::lema_indice(fila@, "<th"@, desde as int);
    }
    let n: usize = fila.len();
    let td = texto::caracteres("<td");
    let en_td = texto::buscar_desde(fila, &td, desde);
    let en_th = texto::buscar_desde(fila, &texto::caracteres("<th"), desde);
    let inicio: Option<usize> = match (en_td, en_th) {
        (Some(i), Some(j)) => if i < j {
            Some(i)
        } else {
            Some(j)
        },
        (Some(i), None) => Some(i),
        (None, o) => o,
    };
    match inicio {
        None => None,
        Some(i) => match texto::buscar_desde(fila, &texto::caracteres(">"), i) {
            None => None,
            Some(j) => {
                proof {
                    texto::lema_indice(fila@, seq!['>'], i as int);
                    assert(j + 1 <= n);
                }
                let cierre = if texto::aparece_en(fila, &td, i) {
                    texto::caracteres("</td>")
                } else {
                    texto::caracteres("</th>")
                };
                match texto::buscar_desde(fila, &cierre, j + 1) {
                    None => None,
                    Some(k) => Some((j + 1, k)),
                }
            },
        },
    }
}

fn celdas_fila(fila: &Vec<char>) -> (r: Vec<String>)
    ensures
        texto::textos(r@) == celdas(fila@, 0),
{
    let n: usize = fila.len();
    let mut r: Vec<String> = Vec::new();
    let mut pos: usize = 0;
    let mut sigue: bool = true;
    assert(texto::textos(r@) + celdas(fila@, 0) =~= celdas(fila@, 0));
    while sigue
        invariant
            pos <= n == fila@.len(),
            sigue ==> texto::textos(r@) + celdas(fila@, pos as int) == celdas(fila@, 0),
            !sigue ==> texto::textos(r@) == celdas(fila@, 0),
        decreases fila@.len() - pos, (if sigue { 1int } else { 0 }),
    {
        proof {
            lema_siguiente_celda(fila@, pos as int);
        }
        match celda_siguiente(fila, pos) {
            Some((a, b)) => {
                let c = texto_de_html(texto::cadena(fila, a, b).as_str());
                let ghost antes = texto::textos(r@);
                r.push(c);
                proof {
                    assert(texto::textos(r@) =~= antes.push(c@));
                    assert(antes + celdas(fila@, pos as int) =~= antes.push(c@) + celdas(
                        fila@,
                        b + 5,
                    ));
                }
                pos = b + 5;
            },
            None => {
                assert(texto::textos(r@) + celdas(fila@, pos as int) =~= texto::textos(r@));
                sigue = false;
            },
        }
    }
    r
}

fn trozo_siguiente(v: &Vec<char>, abre: &Vec<char>, cierra: &Vec<char>, desde: usize) -> (r: Option<
    (usize, usize),
>)
    ensures
        match r {
            Some(p) => siguiente_trozo(v@, abre@, cierra@, desde as int) == Some(
                (p.0 as int, p.1 as int),
            ),
            None => siguiente_trozo(v@, abre@, cierra@, desde as int) is None,
        },
{
    match texto::buscar_desde(v, abre, desde) {
        None => None,
        Some(i) => match texto::buscar_desde(v, cierra, i) {
            None => None,
            Some(j) => Some((i, j)),
        },
    }
}

fn filas_tabla(tabla: &Vec<char>) -> (r: Vec<Vec<String>>)
    ensures
        tabla::filas_de(r@) == filas(tabla@, 0),
{
    proof {
        reveal_strlit("<tr");
        reveal_strlit("</tr>");
    }
    let abre = texto::caracteres("<tr");
    let cierra = texto::caracteres("</tr>");
    let n: usize = tabla.len();
    let mut r: Vec<Vec<String>> = Vec::new();
    let mut pos: usize = 0;
    let mut sigue: bool = true;
    assert(tabla::filas_de(r@) + filas(tabla@, 0) =~= filas(tabla@, 0));
    while sigue
        invariant
            abre@ == "<tr"@,
            cierra@ == "</tr>"@,
            abre@.len() > 1,
            cierra@.len() == 5,
            abre@[1] != cierra@[1],
            pos <= n == tabla@.len(),
            sigue ==> tabla::filas_de(r@) + filas(tabla@, pos as int) == filas(tabla@, 0),
            !sigue ==> tabla::filas_de(r@) == filas(tabla@, 0),
        decreases tabla@.len() - pos, (if sigue { 1int } else { 0 }),
    {
        proof {
            lema_siguiente_trozo(tabla@, abre@, cierra@, pos as int);
        }
        match trozo_siguiente(tabla, &abre, &cierra, pos) {
            Some((a, b)) => {
                let cs = celdas_fila(&trozo(tabla, a, b));
                let ghost antes = tabla::filas_de(r@);
                let ghost vista = texto::textos(cs@);
                if cs.len() > 0 {
                    r.push(cs);
                    proof {
                        assert(tabla::filas_de(r@) =~= antes.push(vista));
                        assert(antes + filas(tabla@, pos as int) =~= antes.push(vista) + filas(
                            tabla@,
                            b + 5,
                        ));
                    }
                } else {
                    assert(vista.len() == 0);
                }
                pos = b + 5;
            },
            None => {
                assert(tabla::filas_de(r@) + filas(tabla@, pos as int) =~= tabla::filas_de(r@));
                sigue = false;
            },
        }
    }
    r
}

fn mayor_tabla(html: &Vec<char>) -> (mejor: Vec<Vec<String>>)
    ensures
        tabla::filas_de(mejor@) == mayor(tablas(html@, 0), seq![]),
{
    proof {
        reveal_strlit("<table");
        reveal_strlit("</table>");
    }
    let abre = texto::caracteres("<table");
    let cierra = texto::caracteres("</table>");
    let mut mejor: Vec<Vec<String>> = Vec::new();
    let mut pos: usize = 0;
    let mut sigue: bool = true;
    assert(tabla::filas_de(mejor@) =~= Seq::<Seq<Seq<char>>>::empty());
    while sigue
        invariant
            abre@ == "<table"@,
            cierra@ == "</table>"@,
            abre@.len() > 1,
            cierra@.len() > 1,
            abre@[1] != cierra@[1],
            pos <= html@.len(),
            sigue ==> mayor(tablas(html@, pos as int), tabla::filas_de(mejor@)) == mayor(
                tablas(html@, 0),
                seq![],
            ),
            !sigue ==> tabla::filas_de(mejor@) == mayor(tablas(html@, 0), seq![]),
        decreases html@.len() - pos, (if sigue { 1int } else { 0 }),
    {
        proof {
            lema_siguiente_trozo(html@, abre@, cierra@, pos as int);
        }
        match trozo_siguiente(html, &abre, &cierra, pos) {
            Some((a, b)) => {
                let ghost ts = tablas(html@, pos as int);
                let ghost antes = tabla::filas_de(mejor@);
                let fs = filas_tabla(&trozo(html, a, b));
                proof {
                    assert(ts[0] == html@.subrange(a as int, b as int));
                    assert(ts.drop_first() =~= tablas(html@, b as int));
                    assert(tabla::filas_de(fs@).len() == fs@.len());
                }
                if fs.len() > mejor.len() {
                    mejor = fs;
                }
                pos = b;
                if mejor.len() > FILAS_SUFICIENTES {
                    sigue = false;
                }
            },
            None => {
                sigue = false;
            },
        }
    }
    mejor
}

/// La tabla con mas filas de una pagina, en CSV.
pub fn extract_largest_table_html(html: &str) -> (r: String)
    ensures
        r@ == tabla_csv(html@),
{
    let lower = html.to_lowercase();
    let mejor = mayor_tabla(&texto::caracteres(lower.as_str()));
    let ghost fs = tabla::filas_de(mejor@);
    let mut r = String::new();
    let mut i: usize = 0;
    assert(fs.take(0) =~= Seq::<Seq<Seq<char>>>::empty());
    while i < mejor.len()
        invariant
            0 <= i <= mejor@.len(),
            fs == tabla::filas_de(mejor@),
            r@ == lineas_csv(fs.take(i as int)),
        decreases mejor@.len() - i,
    {
        let linea = texto::unir(&mejor[i], ",");
        proof {
            assert(fs.take(i + 1).drop_last() =~= fs.take(i as int));
            assert(fs[i as int] == texto::textos(mejor@[i as int]@));
        }
        r = texto::mas(texto::mas(r, linea.as_str()), "\n");
        i = i + 1;
    }
    assert(fs.take(i as int) =~= fs);
    r
}

/// La tabla elegida es una de la pagina (o ninguna) y tiene al menos tantas filas
/// como cualquier otra, salvo que ya pase de las suficientes.
pub proof fn ley_tabla_mayor(ts: Seq<Seq<char>>, mejor: Seq<Seq<Seq<char>>>)
    ensures
        mayor(ts, mejor).len() >= mejor.len(),
        mayor(ts, mejor).len() > FILAS_SUFICIENTES || forall|i: int|
            0 <= i < ts.len() ==> mayor(ts, mejor).len() >= #[trigger] filas(ts[i], 0).len(),
        mayor(ts, mejor) == mejor || exists|i: int|
            0 <= i < ts.len() && mayor(ts, mejor) == #[trigger] filas(ts[i], 0),
    decreases ts.len(),
{
    if ts.len() > 0 {
        let fs = filas(ts[0], 0);
        let m = if fs.len() > mejor.len() {
            fs
        } else {
            mejor
        };
        if m.len() <= FILAS_SUFICIENTES {
            let resto = ts.drop_first();
            ley_tabla_mayor(resto, m);
            let g = mayor(ts, mejor);
            assert(g == mayor(resto, m));
            if g.len() <= FILAS_SUFICIENTES {
                assert forall|i: int| 0 <= i < ts.len() implies g.len() >= #[trigger] filas(
                    ts[i],
                    0,
                ).len() by {
                    if i > 0 {
                        assert(resto[i - 1] == ts[i]);
                        assert(g.len() >= filas(resto[i - 1], 0).len());
                    }
                }
            }
            if g != m {
                let i = choose|i: int| 0 <= i < resto.len() && g == #[trigger] filas(resto[i], 0);
                assert(ts[i + 1] == resto[i]);
                assert(g == filas(ts[i + 1], 0));
            } else if m != mejor {
                assert(g == filas(ts[0], 0));
            }
        } else if m != mejor {
            assert(mayor(ts, mejor) == filas(ts[0], 0));
        }
    }
}

// ---------------------------------------------------------------------------
// Campos ocultos
// ---------------------------------------------------------------------------

/// Bytes en los que se busca el final de una etiqueta.
pub const VENTANA: usize = 200_000;

/// Los primeros bytes de `s` en los que se busca; nada si el corte parte un
/// caracter.
pub open spec fn ventana(s: Seq<char>) -> Option<Seq<char>> {
    if texto::bytes_de(s) <= VENTANA {
        Some(s)
    } else {
        match texto::indice_byte(s, VENTANA as int) {
            Some(i) => Some(s.take(i)),
            None => None,
        }
    }
}

/// La etiqueta que empieza en `s`, sin su cierre.
pub open spec fn etiqueta(s: Seq<char>) -> Seq<char> {
    let w = match ventana(s) {
        Some(w) => w,
        None => seq![],
    };
    match texto::indice(w, seq!['>'], 0) {
        Some(j) => w.take(j),
        None => w,
    }
}

/// Lo que hay entre comillas tras la primera `marca` de una etiqueta; vacio si no
/// esta.
pub open spec fn atributo(tag: Seq<char>, marca: Seq<char>) -> Seq<char> {
    match texto::indice(tag, marca, 0) {
        None => seq![],
        Some(i) => {
            let s = tag.skip(i + marca.len());
            match texto::indice(s, seq!['"'], 0) {
                Some(j) => s.take(j),
                None => seq![],
            }
        },
    }
}

/// Los campos de formulario cuyo nombre empieza por `__`, con su valor, desde una
/// posicion.
pub open spec fn campos(html: Seq<char>, desde: int) -> Seq<(Seq<char>, Seq<char>)>
    decreases html.len() - desde,
{
    if desde < 0 {
        seq![]
    } else {
        proof {
            reveal_strlit("<input");
            texto::lema_indice(html, "<input"@, desde);
        }
        match texto::indice(html, "<input"@, desde) {
            None => seq![],
            Some(i) => {
                let tag = etiqueta(html.skip(i));
                let nombre = atributo(tag, "name=\""@);
                let resto = campos(html, i + 6);
                if texto::empieza(nombre, "__"@) {
                    seq![(nombre, atributo(tag, "value=\""@))] + resto
                } else {
                    resto
                }
            },
        }
    }
}

/// Los campos ocultos de una pagina empiezan todos por `__`.
pub proof fn ley_campos_ocultos(html: Seq<char>, desde: int)
    ensures
        forall|k: int|
            0 <= k < campos(html, desde).len() ==> texto::empieza(
                (#[trigger] campos(html, desde)[k]).0,
                "__"@,
            ),
    decreases html.len() - desde,
{
    if desde >= 0 {
        reveal_strlit("<input");
        texto::lema_indice(html, "<input"@, desde);
        if let Some(i) = texto::indice(html, "<input"@, desde) {
            ley_campos_ocultos(html, i + 6);
            let todos = campos(html, desde);
            let resto = campos(html, i + 6);
            assert forall|k: int| 0 <= k < todos.len() implies texto::empieza(
                (#[trigger] todos[k]).0,
                "__"@,
            ) by {
                if todos.len() == resto.len() {
                    assert(todos[k] == resto[k]);
                } else if k > 0 {
                    assert(todos[k] == resto[k - 1]);
                }
            }
        }
    }
}

/// Ninguna etiqueta de entrada obliga a partir un caracter.
pub open spec fn campos_legibles(html: Seq<char>) -> bool {
    forall|i: int| #[trigger]
        texto::aparece(html, "<input"@, i) ==> ventana(html.skip(i)) is Some
}

fn atributo_de(tag: &Vec<char>, marca: &str) -> (r: String)
    requires
        marca@.len() > 0,
    ensures
        r@ == atributo(tag@, marca@),
{
    let m = texto::caracteres(marca);
    let n: usize = tag.len();
    proof {
        texto::lema_indice(tag@, marca@, 0);
        reveal_strlit("\"");
        assert("\""@ =~= seq!['"']);
    }
    match texto::buscar_desde(tag, &m, 0) {
        None => String::new(),
        Some(i) => {
            let s = trozo(tag, i + m.len(), n);
            assert(s@ =~= tag@.skip(i + m@.len()));
            proof {
                texto::lema_indice(s@, seq!['"'], 0);
            }
            match texto::buscar_desde(&s, &texto::caracteres("\""), 0) {
                Some(j) => {
                    let r = texto::cadena(&s, 0, j);
                    assert(r@ =~= s@.take(j as int));
                    r
                },
                None => String::new(),
            }
        },
    }
}

proof fn lema_ventana(s: Seq<char>)
    requires
        ventana(s) is Some,
    ensures
        texto::indice_byte(s, VENTANA as int) matches Some(i) ==> 0 <= i <= s.len() && ventana(s)
            == Some(s.take(i)),
        texto::indice_byte(s, VENTANA as int) is None ==> ventana(s) == Some(s),
{
    texto::lema_indice_byte(s, VENTANA as int);
    if texto::bytes_de(s) <= VENTANA {
        if let Some(i) = texto::indice_byte(s, VENTANA as int) {
            assert(s.take(i) + s.skip(i) =~= s);
            texto::lema_bytes_suma(s.take(i), s.skip(i));
            texto::lema_bytes_cotas(s.skip(i));
            assert(s.take(i) =~= s);
        }
    }
}

fn etiqueta_en(html: &Vec<char>, i: usize) -> (r: Vec<char>)
    requires
        i <= html@.len(),
        ventana(html@.skip(i as int)) is Some,
    ensures
        r@ == etiqueta(html@.skip(i as int)),
{
    let ghost s = html@.skip(i as int);
    let n: usize = html.len();
    proof {
        lema_ventana(s);
        reveal_strlit(">");
        assert(">"@ =~= seq!['>']);
    }
    let fin: usize = match texto::posicion_byte(html, i, VENTANA) {
        Some(k) => i + k,
        None => n,
    };
    let w = trozo(html, i, fin);
    assert(w@ =~= ventana(s)->0);
    proof {
        texto::lema_indice(w@, seq!['>'], 0);
    }
    match texto::buscar_desde(&w, &texto::caracteres(">"), 0) {
        Some(j) => {
            let r = trozo(&w, 0, j);
            assert(r@ =~= w@.take(j as int));
            r
        },
        None => w,
    }
}

/// Los campos ocultos de una pagina ASP.NET.
pub fn parse_hidden_fields(html: &str) -> (r: Vec<(String, String)>)
    requires
        campos_legibles(html@),
    ensures
        config::pares(r@) == campos(html@, 0),
{
    let v = texto::caracteres(html);
    let n: usize = v.len();
    proof {
        reveal_strlit("<input");
        reveal_strlit("name=\"");
        reveal_strlit("value=\"");
    }
    let marca = texto::caracteres("<input");
    let mut r: Vec<(String, String)> = Vec::new();
    let mut pos: usize = 0;
    let mut sigue: bool = true;
    assert(config::pares(r@) + campos(v@, 0) =~= campos(v@, 0));
    while sigue
        invariant
            v@ == html@,
            campos_legibles(html@),
            marca@ == "<input"@,
            marca@.len() == 6,
            "name=\""@.len() > 0,
            "value=\""@.len() > 0,
            pos <= n == v@.len(),
            sigue ==> config::pares(r@) + campos(v@, pos as int) == campos(v@, 0),
            !sigue ==> config::pares(r@) == campos(v@, 0),
        decreases v@.len() - pos, (if sigue { 1int } else { 0 }),
    {
        proof {
            texto::lema_indice(v@, marca@, pos as int);
        }
        match texto::buscar_desde(&v, &marca, pos) {
            Some(i) => {
                assert(texto::aparece(html@, "<input"@, i as int));
                let tag = etiqueta_en(&v, i);
                let name = atributo_de(&tag, "name=\"");
                let ghost antes = config::pares(r@);
                if texto::empieza_con(name.as_str(), "__") {
                    let val = atributo_de(&tag, "value=\"");
                    let ghost par = (name@, val@);
                    r.push((name, val));
                    proof {
                        assert(config::pares(r@) =~= antes.push(par));
                        assert(antes + campos(v@, pos as int) =~= antes.push(par) + campos(
                            v@,
                            i + 6,
                        ));
                    }
                }
                pos = i + 6;
            },
            None => {
                assert(config::pares(r@) + campos(v@, pos as int) =~= config::pares(r@));
                sigue = false;
            },
        }
    }
    r
}

/// Decide si los campos ocultos de una pagina se pueden leer.
pub fn es_legible(html: &str) -> (r: bool)
    ensures
        r == campos_legibles(html@),
{
    let v = texto::caracteres(html);
    let n: usize = v.len();
    proof {
        reveal_strlit("<input");
    }
    let marca = texto::caracteres("<input");
    let mut pos: usize = 0;
    loop
        invariant
            v@ == html@,
            marca@ == "<input"@,
            marca@.len() == 6,
            pos <= n == v@.len(),
            forall|i: int|
                i < pos && #[trigger] texto::aparece(html@, "<input"@, i) ==> ventana(
                    html@.skip(i),
                ) is Some,
        decreases v@.len() - pos,
    {
        proof {
            texto::lema_indice(v@, marca@, pos as int);
        }
        match texto::buscar_desde(&v, &marca, pos) {
            Some(i) => {
                assert(texto::aparece(html@, "<input"@, i as int));
                let ghost s = html@.skip(i as int);
                match texto::posicion_byte(&v, i, VENTANA) {
                    Some(_) => {},
                    None => {
                        if n - i > VENTANA {
                            proof {
                                texto::lema_bytes_cotas(s);
                            }
                            return false;
                        }
                        let resto = texto::cadena(&v, i, n);
                        assert(resto@ =~= s);
                        if texto::largo_bytes(resto.as_str()) > VENTANA {
                            return false;
                        }
                    },
                }
                assert(ventana(s) is Some);
                pos = i + 1;
            },
            None => {
                return true;
            },
        }
    }
}

// ---------------------------------------------------------------------------
// Direcciones y formularios
// ---------------------------------------------------------------------------

pub const BASE: &'static str = "http://intranet.cipsa.com.pe";

pub const BTN_EXPORT: &'static str = "ctl00$ContentPlaceHolder1$btnExportar";

/// La direccion del informe de ventas de `df` a `dt`, de los articulos de `art_i` a
/// `art_f`, con la accion `accion`.
pub open spec fn direccion(
    df: Seq<char>,
    dt: Seq<char>,
    art_i: Seq<char>,
    art_f: Seq<char>,
    accion: Seq<char>,
) -> Seq<char> {
    BASE@
        + "/ESTADISTICASVENTAS/Estadistica11.aspx?valueCli=&valueVend=&valueVend2=&valueCli2=&valueSucI=&valueSucF=&accion="@
        + accion + "&valueArtI="@ + art_i + "&valueArtF="@ + art_f
        + "&valueAlmI=&valueAlmF=&valueFI="@ + df + "&valueFF="@ + dt
        + "&valueGrat=1&valueDocs=01F%2c+01B%2c+01NCR%2c+01NDB"@
}

pub fn exp_url(df: &str, dt: &str, art_i: &str, art_f: &str, accion: &str) -> (r: String)
    ensures
        r@ == direccion(df@, dt@, art_i@, art_f@, accion@),
{
    let r = texto::mas(
        BASE.to_owned(),
        "/ESTADISTICASVENTAS/Estadistica11.aspx?valueCli=&valueVend=&valueVend2=&valueCli2=&valueSucI=&valueSucF=&accion=",
    );
    let r = texto::mas(texto::mas(r, accion), "&valueArtI=");
    let r = texto::mas(texto::mas(r, art_i), "&valueArtF=");
    let r = texto::mas(texto::mas(r, art_f), "&valueAlmI=&valueAlmF=&valueFI=");
    let r = texto::mas(texto::mas(r, df), "&valueFF=");
    texto::mas(texto::mas(r, dt), "&valueGrat=1&valueDocs=01F%2c+01B%2c+01NCR%2c+01NDB")
}

/// La direccion con la hora, para que ningun intermediario sirva una copia vieja.
pub open spec fn sin_cache(url: Seq<char>, ahora: nat) -> Seq<char> {
    url + (if texto::contiene(url, "?"@) {
        "&_t="@
    } else {
        "?_t="@
    }) + texto::decimal(ahora)
}

pub fn url_sin_cache(url: &str, ahora: u64) -> (r: String)
    ensures
        r@ == sin_cache(url@, ahora as nat),
{
    proof {
        reveal_strlit("?");
    }
    let marca = if texto::contiene_texto(url, "?") {
        "&_t="
    } else {
        "?_t="
    };
    texto::mas(texto::mas(url.to_owned(), marca), texto::texto_u64(ahora).as_str())
}

/// El nombre del archivo de un rango, con un sufijo para sus partes.
pub open spec fn nombre_xls(label: Seq<char>, suffix: Seq<char>) -> Seq<char> {
    "ventas_"@ + label + suffix + ".xls"@
}

pub fn fname(label: &str, suffix: &str) -> (r: String)
    ensures
        r@ == nombre_xls(label@, suffix@),
{
    let r = texto::mas("ventas_".to_owned(), label);
    texto::mas(texto::mas(r, suffix), ".xls")
}

/// La pagina es la de acceso: tiene el campo del usuario.
pub open spec fn pagina_acceso(html: Seq<char>) -> bool {
    texto::contiene(html, "id=\"txtnombre\""@) || texto::contiene(html, "id='txtnombre'"@)
}

pub fn url_is_login(html: &str) -> (r: bool)
    ensures
        r == pagina_acceso(html@),
{
    proof {
        reveal_strlit("id=\"txtnombre\"");
        reveal_strlit("id='txtnombre'");
    }
    texto::contiene_texto(html, "id=\"txtnombre\"") || texto::contiene_texto(
        html,
        "id='txtnombre'",
    )
}

fn con_campo(form: Vec<(String, String)>, nombre: &str, valor: &str) -> (r: Vec<(String, String)>)
    ensures
        config::pares(r@) == config::pares(form@).push((nombre@, valor@)),
{
    let mut r = form;
    let ghost antes = r@;
    r.push((nombre.to_owned(), valor.to_owned()));
    assert(config::pares(r@) =~= config::pares(antes).push((nombre@, valor@)));
    r
}

/// El formulario de acceso: los campos ocultos de la pagina y las credenciales.
/// Sin campos ocultos no hay formulario.
pub fn formulario_acceso(html: &str, user: &str, pass: &str) -> (r: Option<Vec<(String, String)>>)
    requires
        campos_legibles(html@),
    ensures
        match r {
            None => campos(html@, 0).len() == 0,
            Some(f) => campos(html@, 0).len() > 0 && config::pares(f@) == campos(html@, 0).push(
                ("txtnombre"@, user@),
            ).push(("txtpass"@, pass@)).push(("Button1"@, "Aceptar"@)),
        },
{
    let form = parse_hidden_fields(html);
    assert(config::pares(form@).len() == form@.len());
    if form.len() == 0 {
        return None;
    }
    let form = con_campo(form, "txtnombre", user);
    let form = con_campo(form, "txtpass", pass);
    Some(con_campo(form, "Button1", "Aceptar"))
}

/// El acceso se rechazo: la intranet vuelve a la pagina de acceso y pide de nuevo
/// las credenciales.
pub open spec fn rechazado(url: Seq<char>, cuerpo: Seq<char>) -> bool {
    texto::contiene(url, "login"@) && texto::contiene(cuerpo, "txtnombre"@) && texto::contiene(
        cuerpo,
        "txtpass"@,
    )
}

pub fn acceso_rechazado(url: &str, cuerpo: &str) -> (r: bool)
    ensures
        r == rechazado(url@, cuerpo@),
{
    proof {
        reveal_strlit("login");
        reveal_strlit("txtnombre");
        reveal_strlit("txtpass");
    }
    texto::contiene_texto(url, "login") && texto::contiene_texto(cuerpo, "txtnombre")
        && texto::contiene_texto(cuerpo, "txtpass")
}

/// El formulario que pide la exportacion; nada si la sesion se ha perdido.
pub fn formulario_export(html: &str) -> (r: Option<Vec<(String, String)>>)
    requires
        campos_legibles(html@),
    ensures
        match r {
            None => campos(html@, 0).len() == 0 || pagina_acceso(html@),
            Some(f) => campos(html@, 0).len() > 0 && !pagina_acceso(html@) && config::pares(f@)
                == campos(html@, 0).push((BTN_EXPORT@, "Exportar a "@)),
        },
{
    let form = parse_hidden_fields(html);
    assert(config::pares(form@).len() == form@.len());
    if form.len() == 0 || url_is_login(html) {
        return None;
    }
    Some(con_campo(form, BTN_EXPORT, "Exportar a "))
}

/// Un error de descarga por el que se vuelve a entrar y se prueba otra vez.
pub open spec fn sesion_perdida(error: Seq<char>) -> bool {
    texto::contiene(error, "sesion perdida"@)
}

pub fn es_sesion_perdida(error: &str) -> (r: bool)
    ensures
        r == sesion_perdida(error@),
{
    proof {
        reveal_strlit("sesion perdida");
    }
    texto::contiene_texto(error, "sesion perdida")
}

/// Las galletas del navegador, sin blancos de mas.
pub open spec fn galletas(cookies: Seq<char>) -> Seq<char> {
    texto::unido(
        texto::partes(cookies, ';').map_values(|c: Seq<char>| texto::recortado(c)),
        "; "@,
    )
}

pub fn cabecera_galletas(cookies: &str) -> (r: String)
    ensures
        r@ == galletas(cookies@),
{
    let ps = texto::partir(cookies, ';');
    let mut v: Vec<String> = Vec::new();
    let mut i: usize = 0;
    while i < ps.len()
        invariant
            0 <= i <= ps@.len(),
            v@.len() == i,
            forall|k: int| 0 <= k < i ==> (#[trigger] v@[k])@ == texto::recortado(ps@[k]@),
        decreases ps@.len() - i,
    {
        v.push(texto::recortar(ps[i].as_str()));
        i = i + 1;
    }
    assert(texto::textos(v@) =~= texto::textos(ps@).map_values(
        |c: Seq<char>| texto::recortado(c),
    ));
    texto::unir(&v, "; ")
}

// ---------------------------------------------------------------------------
// Validez de lo descargado
// ---------------------------------------------------------------------------

/// El texto que `String::from_utf8_lossy` da a unos bytes.
pub uninterp spec fn texto_de_bytes(b: Seq<u8>) -> Seq<char>;

/// `String::from_utf8_lossy`: los bytes que son UTF-8 valido dan su texto; en los
/// demas, que pone en lugar de lo invalido no se enuncia.
#[verifier::external_body]
fn utf8_con_perdida(b: &[u8]) -> (r: String)
    ensures
        r@ == texto_de_bytes(b@),
        vstd::utf8::valid_utf8(b@) ==> r@ == vstd::utf8::decode_utf8(b@),
{
    String::from_utf8_lossy(b).to_string()
}

/// Por donde llego lo descargado.
#[derive(Debug, Clone, Copy, PartialEq, Eq, Structural)]
pub enum Via {
    Http,
    Navegador,
}

pub open spec fn primeros(b: Seq<u8>, n: int) -> Seq<u8> {
    if b.len() <= n {
        b
    } else {
        b.take(n)
    }
}

/// Un libro antiguo (OLE2).
pub open spec fn es_ole(b: Seq<u8>) -> bool {
    b.len() >= 4 && b[0] == 0xD0 && b[1] == 0xCF && b[2] == 0x11 && b[3] == 0xE0
}

/// Un libro comprimido.
pub open spec fn es_zip(b: Seq<u8>) -> bool {
    b.len() >= 4 && b[0] == 0x50 && b[1] == 0x4B
}

/// Una pagina: por el navegador se pide ademas que siga `!`, `h` o `H`.
pub open spec fn es_html(via: Via, b: Seq<u8>) -> bool {
    b.len() >= 4 && b[0] == 0x3C && (via == Via::Http || b[1] == 0x21 || b[1] == 0x68 || b[1]
        == 0x48)
}

/// Un aviso de error en lugar de un libro.
pub open spec fn es_aviso(b: Seq<u8>) -> bool {
    let cabeza = texto::minusculas(texto_de_bytes(primeros(b, 300)));
    b.len() < 512 && (texto::contiene(cabeza, "<html"@) || texto::contiene(cabeza, "error"@)
        || texto::contiene(cabeza, "exception"@))
}

/// Por que no vale lo descargado.
pub enum ErrorDescarga {
    /// Un aviso de error: su comienzo.
    Aviso(String),
    /// Una pagina: su comienzo.
    Pagina(String),
    /// Una respuesta corta que dice ser una pagina.
    Sospechosa,
}

/// Los `n` primeros caracteres de un texto.
pub open spec fn comienzo(s: Seq<char>, n: int) -> Seq<char> {
    if s.len() <= n {
        s
    } else {
        s.take(n)
    }
}

fn comienzo_de(s: &str, n: usize) -> (r: String)
    ensures
        r@ == comienzo(s@, n as int),
{
    let v = texto::caracteres(s);
    if v.len() <= n {
        s.to_owned()
    } else {
        let r = texto::cadena(&v, 0, n);
        assert(r@ =~= s@.take(n as int));
        r
    }
}

fn primeros_bytes(b: &[u8], n: usize) -> (r: Vec<u8>)
    ensures
        r@ == primeros(b@, n as int),
{
    let fin: usize = if b.len() <= n {
        b.len()
    } else {
        n
    };
    let mut r: Vec<u8> = Vec::new();
    let mut i: usize = 0;
    while i < fin
        invariant
            0 <= i <= fin <= b@.len(),
            r@ == b@.take(i as int),
        decreases fin - i,
    {
        r.push(b[i]);
        i = i + 1;
        assert(r@ =~= b@.take(i as int));
    }
    assert(b@.take(b@.len() as int) =~= b@);
    r
}

/// Comprueba que lo descargado es un libro y no una pagina ni un aviso.
pub fn validar_libro(via: Via, bytes: &[u8], ct: &str) -> (r: Result<(), ErrorDescarga>)
    ensures
        ({
            let libro = es_ole(bytes@) || es_zip(bytes@);
            if es_aviso(bytes@) {
                r matches Err(ErrorDescarga::Aviso(m)) && m@ == comienzo(
                    texto::minusculas(texto_de_bytes(primeros(bytes@, 300))),
                    150,
                )
            } else if es_html(via, bytes@) && !libro {
                r matches Err(ErrorDescarga::Pagina(m)) && m@ == comienzo(
                    texto_de_bytes(primeros(bytes@, 200)),
                    120,
                )
            } else if bytes@.len() >= 4 && !libro && texto::contiene(ct@, "text/html"@)
                && bytes@.len() < 2048 {
                r matches Err(ErrorDescarga::Sospechosa)
            } else {
                r is Ok
            }
        }),
{
    proof {
        reveal_strlit("<html");
        reveal_strlit("error");
        reveal_strlit("exception");
        reveal_strlit("text/html");
    }
    if bytes.len() < 512 {
        let cabeza = utf8_con_perdida(primeros_bytes(bytes, 300).as_slice());
        let head = cabeza.as_str().to_lowercase();
        if texto::contiene_texto(head.as_str(), "<html") || texto::contiene_texto(
            head.as_str(),
            "error",
        ) || texto::contiene_texto(head.as_str(), "exception") {
            return Err(ErrorDescarga::Aviso(comienzo_de(head.as_str(), 150)));
        }
    }
    if bytes.len() >= 4 {
        let ole = bytes[0] == 0xD0 && bytes[1] == 0xCF && bytes[2] == 0x11 && bytes[3] == 0xE0;
        let zip = bytes[0] == 0x50 && bytes[1] == 0x4B;
        let html = bytes[0] == 0x3C && (via == Via::Http || bytes[1] == 0x21 || bytes[1] == 0x68
            || bytes[1] == 0x48);
        if html && !ole && !zip {
            let head = utf8_con_perdida(primeros_bytes(bytes, 200).as_slice());
            return Err(ErrorDescarga::Pagina(comienzo_de(head.as_str(), 120)));
        }
        if !ole && !zip && texto::contiene_texto(ct, "text/html") && bytes.len() < 2048 {
            return Err(ErrorDescarga::Sospechosa);
        }
    }
    Ok(())
}

/// Lo que llega por HTTP es un libro.
pub fn validate_xls(bytes: &[u8], ct: &str) -> (r: Result<(), String>)
    ensures
        ({
            let libro = es_ole(bytes@) || es_zip(bytes@);
            let n = texto::decimal(bytes@.len());
            if es_aviso(bytes@) {
                r matches Err(m) && m@ == "export devolvio HTML de error ("@ + n + " bytes): "@
                    + comienzo(texto::minusculas(texto_de_bytes(primeros(bytes@, 300))), 150)
            } else if es_html(Via::Http, bytes@) && !libro {
                r matches Err(m) && m@ == "export devolvio HTML en vez de XLS (ct="@ + ct@ + ", "@
                    + n + " bytes): "@ + comienzo(texto_de_bytes(primeros(bytes@, 200)), 120)
            } else if bytes@.len() >= 4 && !libro && texto::contiene(ct@, "text/html"@)
                && bytes@.len() < 2048 {
                r matches Err(m) && m@ == "respuesta sospechosa text/html "@ + n + " bytes"@
            } else {
                r is Ok
            }
        }),
{
    let n = texto::texto_usize(bytes.len());
    match validar_libro(Via::Http, bytes, ct) {
        Ok(_) => Ok(()),
        Err(ErrorDescarga::Aviso(head)) => {
            let m = texto::mas("export devolvio HTML de error (".to_owned(), n.as_str());
            Err(texto::mas(texto::mas(m, " bytes): "), head.as_str()))
        },
        Err(ErrorDescarga::Pagina(head)) => {
            let m = texto::mas("export devolvio HTML en vez de XLS (ct=".to_owned(), ct);
            let m = texto::mas(texto::mas(m, ", "), n.as_str());
            Err(texto::mas(texto::mas(m, " bytes): "), head.as_str()))
        },
        Err(ErrorDescarga::Sospechosa) => {
            let m = texto::mas("respuesta sospechosa text/html ".to_owned(), n.as_str());
            Err(texto::mas(m, " bytes"))
        },
    }
}

/// Lo que llega por el navegador es un libro.
pub fn validar_navegador(bytes: &[u8], ct: &str) -> (r: Result<(), String>)
    ensures
        ({
            let libro = es_ole(bytes@) || es_zip(bytes@);
            let n = texto::decimal(bytes@.len());
            if es_aviso(bytes@) {
                r matches Err(m) && m@ == "Export devolvio HTML de error ("@ + n + " bytes, ct="@
                    + ct@ + "): "@ + comienzo(
                    texto::minusculas(texto_de_bytes(primeros(bytes@, 300))),
                    150,
                )
            } else if es_html(Via::Navegador, bytes@) && !libro {
                r matches Err(m) && m@ == "Export devolvio HTML en lugar de XLS (ct="@ + ct@ + ", "@
                    + n + " bytes): "@ + comienzo(texto_de_bytes(primeros(bytes@, 200)), 120)
            } else if bytes@.len() >= 4 && !libro && texto::contiene(ct@, "text/html"@)
                && bytes@.len() < 2048 {
                r matches Err(m) && m@ == "Respuesta sospechosa text/html con "@ + n
                    + " bytes, ct="@ + ct@
            } else {
                r is Ok
            }
        }),
{
    let n = texto::texto_usize(bytes.len());
    match validar_libro(Via::Navegador, bytes, ct) {
        Ok(_) => Ok(()),
        Err(ErrorDescarga::Aviso(head)) => {
            let m = texto::mas("Export devolvio HTML de error (".to_owned(), n.as_str());
            let m = texto::mas(texto::mas(m, " bytes, ct="), ct);
            Err(texto::mas(texto::mas(m, "): "), head.as_str()))
        },
        Err(ErrorDescarga::Pagina(head)) => {
            let m = texto::mas("Export devolvio HTML en lugar de XLS (ct=".to_owned(), ct);
            let m = texto::mas(texto::mas(m, ", "), n.as_str());
            Err(texto::mas(texto::mas(m, " bytes): "), head.as_str()))
        },
        Err(ErrorDescarga::Sospechosa) => {
            let m = texto::mas("Respuesta sospechosa text/html con ".to_owned(), n.as_str());
            Err(texto::mas(texto::mas(m, " bytes, ct="), ct))
        },
    }
}

/// Un libro de verdad vale siempre que no sea tan corto como un aviso.
pub proof fn ley_libro_vale(via: Via, b: Seq<u8>)
    requires
        b.len() >= 512,
        es_ole(b) || es_zip(b),
    ensures
        !es_aviso(b),
        !es_html(via, b),
{
}

/// Por que no vale una pagina con el informe en una tabla.
pub enum ErrorTabla {
    /// La pagina es corta o es la de acceso: sus bytes.
    SinTabla(usize),
    /// La tabla apenas tiene texto: sus bytes.
    Vacia(usize),
}

/// El CSV de la tabla de una pagina con el informe.
pub fn tabla_de_pagina(html: &str) -> (r: Result<String, ErrorTabla>)
    ensures
        ({
            let t = tabla_csv(html@);
            if texto::bytes_de(html@) < 5000 || pagina_acceso(html@) {
                r matches Err(ErrorTabla::SinTabla(n)) && n == texto::bytes_de(html@)
            } else if texto::bytes_de(t) < 100 {
                r matches Err(ErrorTabla::Vacia(n)) && n == texto::bytes_de(t)
            } else {
                r matches Ok(c) && c@ == t
            }
        }),
{
    let n: usize = texto::largo_bytes(html);
    if n < 5000 || url_is_login(html) {
        return Err(ErrorTabla::SinTabla(n));
    }
    let csv = extract_largest_table_html(html);
    let m: usize = texto::largo_bytes(csv.as_str());
    if m < 100 {
        return Err(ErrorTabla::Vacia(m));
    }
    Ok(csv)
}

/// Las lineas de una tabla y si bastan para darla por buena.
pub fn lineas_suficientes(csv: &str) -> (r: (usize, bool))
    ensures
        r.0 == texto::lineas(csv@).len(),
        r.1 == (r.0 >= 50),
{
    let v = texto::separar_lineas(csv);
    assert(texto::textos(v@).len() == v@.len());
    (v.len(), v.len() >= 50)
}

/// El texto de una celda no lleva comas: cada fila tiene tantos campos como celdas.
pub proof fn ley_celda_sin_comas(s: Seq<char>)
    ensures
        !texto_html(s).contains(','),
{
    reveal_strlit(" ");
    texto::lema_reemplazo_quita(
        texto::unido(texto::palabras(sin_entidades(texto::recortado(s))), " "@),
        ',',
        " "@,
    );
}

// ---------------------------------------------------------------------------
// Leyes
// ---------------------------------------------------------------------------

proof fn lema_sin_entidad(a: Seq<char>, c: Seq<char>, p: Seq<char>, r: Seq<char>)
    requires
        !a.contains('&'),
        !c.contains('&'),
        p.len() >= 2,
        p[0] == '&',
        c.len() == 0 || c[0] != p[1],
    ensures
        texto::reemplazado(a, p, r) == a,
        texto::reemplazado(a + seq!['&'] + c, p, r) == a + seq!['&'] + c,
{
    texto::ley_reemplazo(a, p, r);
    texto::lema_indice(a, p, 0);
    if let Some(i) = texto::indice(a, p, 0) {
        assert(a.subrange(i, i + p.len())[0] == a[i]);
        assert(a.contains('&'));
    }
    let s = a + seq!['&'] + c;
    texto::ley_reemplazo(s, p, r);
    texto::lema_indice(s, p, 0);
    if let Some(i) = texto::indice(s, p, 0) {
        assert(s.subrange(i, i + p.len())[0] == s[i]);
        assert(s.subrange(i, i + p.len())[1] == s[i + 1]);
        if i < a.len() {
            assert(s[i] == a[i]);
            assert(a.contains('&'));
        } else if i == a.len() {
            assert(s[i + 1] == c[0]);
        } else {
            assert(s[i] == c[i - a.len() - 1]);
            assert(c.contains('&'));
        }
    }
}

proof fn lema_con_entidad(a: Seq<char>, p: Seq<char>, b: Seq<char>, r: Seq<char>)
    requires
        !a.contains('&'),
        !b.contains('&'),
        p.len() >= 2,
        p[0] == '&',
    ensures
        texto::reemplazado(a + p + b, p, r) == a + r + b,
{
    let s = a + p + b;
    texto::ley_contiene(a, p, b);
    assert forall|j: int| 0 <= j < a.len() implies !texto::aparece(s, p, j) by {
        if texto::aparece(s, p, j) {
            assert(s.subrange(j, j + p.len())[0] == s[j]);
            assert(s[j] == a[j]);
            assert(a.contains('&'));
        }
    }
    texto::ley_primera_aparicion(s, p, 0, a.len() as int);
    texto::ley_reemplazo(s, p, r);
    assert(s.take(a.len() as int) =~= a);
    assert(s.skip((a.len() + p.len()) as int) =~= b);
    assert(b.len() == 0 || b[0] != '&') by {
        if b.len() > 0 && b[0] == '&' {
            assert(b.contains('&'));
        }
    }
    lema_sin_entidad(b, Seq::empty(), p, r);
}

/// Un texto sin entidades se queda como esta; cada entidad da su caracter y deja lo demas.
pub proof fn ley_entidades(a: Seq<char>, b: Seq<char>)
    requires
        !a.contains('&'),
        !b.contains('&'),
    ensures
        sin_entidades(a) == a,
        sin_entidades(a + "&nbsp;"@ + b) == a + seq![' '] + b,
        sin_entidades(a + "&lt;"@ + b) == a + seq!['<'] + b,
        sin_entidades(a + "&gt;"@ + b) == a + seq!['>'] + b,
        sin_entidades(a + "&quot;"@ + b) == a + seq!['"'] + b,
        sin_entidades(a + "&#39;"@ + b) == a + seq!['\''] + b,
        b.len() == 0 || (b[0] != 'l' && b[0] != 'g' && b[0] != 'q' && b[0] != '#') ==> sin_entidades(
            a + "&amp;"@ + b,
        ) == a + seq!['&'] + b,
{
    lema_entidad(a, "&nbsp;"@, b);
    lema_entidad(a, "&lt;"@, b);
    lema_entidad(a, "&gt;"@, b);
    lema_entidad(a, "&quot;"@, b);
    lema_entidad(a, "&#39;"@, b);
    lema_entidad(a, "&amp;"@, b);
    lema_ninguna(a);
}

proof fn lema_ninguna(a: Seq<char>)
    requires
        !a.contains('&'),
    ensures
        sin_entidades(a) == a,
{
    reveal_strlit("&nbsp;");
    reveal_strlit("&amp;");
    reveal_strlit("&lt;");
    reveal_strlit("&gt;");
    reveal_strlit("&quot;");
    reveal_strlit("&#39;");
    lema_sin_entidad(a, Seq::empty(), "&nbsp;"@, " "@);
    lema_sin_entidad(a, Seq::empty(), "&amp;"@, "&"@);
    lema_sin_entidad(a, Seq::empty(), "&lt;"@, "<"@);
    lema_sin_entidad(a, Seq::empty(), "&gt;"@, ">"@);
    lema_sin_entidad(a, Seq::empty(), "&quot;"@, "\""@);
    lema_sin_entidad(a, Seq::empty(), "&#39;"@, "'"@);
}

proof fn lema_entidad(a: Seq<char>, e: Seq<char>, b: Seq<char>)
    requires
        !a.contains('&'),
        !b.contains('&'),
    ensures
        e == "&nbsp;"@ ==> sin_entidades(a + e + b) == a + seq![' '] + b,
        e == "&lt;"@ ==> sin_entidades(a + e + b) == a + seq!['<'] + b,
        e == "&gt;"@ ==> sin_entidades(a + e + b) == a + seq!['>'] + b,
        e == "&quot;"@ ==> sin_entidades(a + e + b) == a + seq!['"'] + b,
        e == "&#39;"@ ==> sin_entidades(a + e + b) == a + seq!['\''] + b,
        e == "&amp;"@ && (b.len() == 0 || (b[0] != 'l' && b[0] != 'g' && b[0] != 'q' && b[0] != '#'))
            ==> sin_entidades(a + e + b) == a + seq!['&'] + b,
{
    let e1 = "&nbsp;"@;
    let e2 = "&amp;"@;
    let e3 = "&lt;"@;
    let e4 = "&gt;"@;
    let e5 = "&quot;"@;
    let e6 = "&#39;"@;
    lema_literales();
    if e == e1 || e == e2 || e == e3 || e == e4 || e == e5 || e == e6 {
        let c = e.drop_first() + b;
        assert(a + e + b =~= a + seq!['&'] + c);
        assert(!c.contains('&')) by {
            assert forall|i: int| 0 <= i < c.len() implies c[i] != '&' by {
                if i < e.len() - 1 {
                    assert(c[i] == e[i + 1]);
                } else {
                    assert(c[i] == b[i - e.len() + 1]);
                    assert(b.contains(b[i - e.len() + 1]));
                }
            }
        }
        assert(c[0] == e[1]);
        let r = if e == e1 {
            seq![' ']
        } else if e == e3 {
            seq!['<']
        } else if e == e4 {
            seq!['>']
        } else if e == e5 {
            seq!['"']
        } else {
            seq!['\'']
        };
        let t = a + r + b;
        if e != e2 {
            assert(!t.contains('&')) by {
                assert forall|i: int| 0 <= i < t.len() implies t[i] != '&' by {
                    if i < a.len() {
                        assert(t[i] == a[i]);
                        assert(a.contains(a[i]));
                    } else if i > a.len() {
                        assert(t[i] == b[i - a.len() - 1]);
                        assert(b.contains(b[i - a.len() - 1]));
                    }
                }
            }
        }
        if e == e1 {
            lema_con_entidad(a, e1, b, " "@);
        } else {
            lema_sin_entidad(a, c, e1, " "@);
        }
        if e == e1 {
            lema_sin_entidad(t, Seq::empty(), e2, "&"@);
        } else if e == e2 {
            lema_con_entidad(a, e2, b, "&"@);
        } else {
            lema_sin_entidad(a, c, e2, "&"@);
        }
        if e == e1 {
            lema_sin_entidad(t, Seq::empty(), e3, "<"@);
            lema_sin_entidad(t, Seq::empty(), e4, ">"@);
            lema_sin_entidad(t, Seq::empty(), e5, "\""@);
            lema_sin_entidad(t, Seq::empty(), e6, "'"@);
        } else if e == e2 {
            if b.len() == 0 || (b[0] != 'l' && b[0] != 'g' && b[0] != 'q' && b[0] != '#') {
                lema_sin_entidad(a, b, e3, "<"@);
                lema_sin_entidad(a, b, e4, ">"@);
                lema_sin_entidad(a, b, e5, "\""@);
                lema_sin_entidad(a, b, e6, "'"@);
            }
        } else if e == e3 {
            lema_con_entidad(a, e3, b, "<"@);
            lema_sin_entidad(t, Seq::empty(), e4, ">"@);
            lema_sin_entidad(t, Seq::empty(), e5, "\""@);
            lema_sin_entidad(t, Seq::empty(), e6, "'"@);
        } else if e == e4 {
            lema_sin_entidad(a, c, e3, "<"@);
            lema_con_entidad(a, e4, b, ">"@);
            lema_sin_entidad(t, Seq::empty(), e5, "\""@);
            lema_sin_entidad(t, Seq::empty(), e6, "'"@);
        } else if e == e5 {
            lema_sin_entidad(a, c, e3, "<"@);
            lema_sin_entidad(a, c, e4, ">"@);
            lema_con_entidad(a, e5, b, "\""@);
            lema_sin_entidad(t, Seq::empty(), e6, "'"@);
        } else {
            lema_sin_entidad(a, c, e3, "<"@);
            lema_sin_entidad(a, c, e4, ">"@);
            lema_sin_entidad(a, c, e5, "\""@);
            lema_con_entidad(a, e6, b, "'"@);
        }
    }
}

proof fn lema_literales()
    ensures
        "&nbsp;"@ == seq!['&', 'n', 'b', 's', 'p', ';'],
        "&amp;"@ == seq!['&', 'a', 'm', 'p', ';'],
        "&lt;"@ == seq!['&', 'l', 't', ';'],
        "&gt;"@ == seq!['&', 'g', 't', ';'],
        "&quot;"@ == seq!['&', 'q', 'u', 'o', 't', ';'],
        "&#39;"@ == seq!['&', '#', '3', '9', ';'],
        " "@ == seq![' '],
        "&"@ == seq!['&'],
        "<"@ == seq!['<'],
        ">"@ == seq!['>'],
        "\""@ == seq!['"'],
        "'"@ == seq!['\''],
{
    reveal_strlit("&nbsp;");
    reveal_strlit("&amp;");
    reveal_strlit("&lt;");
    reveal_strlit("&gt;");
    reveal_strlit("&quot;");
    reveal_strlit("&#39;");
    reveal_strlit(" ");
    reveal_strlit("&");
    reveal_strlit("<");
    reveal_strlit(">");
    reveal_strlit("\"");
    reveal_strlit("'");
}

/// El texto de una celda sin entidades ni comas conserva, en su orden, todo lo que no es blanco.
pub proof fn ley_texto_de_celda(s: Seq<char>)
    requires
        !s.contains('&'),
        !s.contains(','),
    ensures
        texto::sin_blancos(texto_html(s)) == texto::sin_blancos(s),
{
    reveal_strlit(" ");
    let p = texto::ley_recorte_parte(s);
    let t = texto::recortado(s);
    assert forall|i: int| 0 <= i < t.len() implies s.contains(#[trigger] t[i]) by {
        assert(s[p.0.len() + i] == t[i]);
    }
    assert(!t.contains('&'));
    lema_ninguna(t);
    texto::ley_recorte_sin_blancos(s);
    texto::ley_palabras(t);
    let ps = texto::palabras(t);
    texto::ley_unido_con_blancos(ps, " "@);
    let u = texto::unido(ps, " "@);
    lema_sin_blancos_doble(t);
    assert(texto::sin_blancos(u) == texto::sin_blancos(t));
    assert forall|i: int| 0 <= i < u.len() implies #[trigger] u[i] != ',' by {
        if u[i] == ',' {
            lema_en_sin_blancos(u, i);
            let k = lema_de_sin_blancos(t, ',');
            assert(t.contains(t[k]));
        }
    }
    texto::lema_reemplazo_nulo(u, ',', " "@);
}

proof fn lema_sin_blancos_doble(s: Seq<char>)
    ensures
        texto::sin_blancos(texto::sin_blancos(s)) == texto::sin_blancos(s),
    decreases s.len(),
{
    if s.len() > 0 {
        lema_sin_blancos_doble(s.drop_first());
        if !texto::es_blanco(s[0]) {
            let u = seq![s[0]];
            texto::lema_sin_blancos_suma(u, texto::sin_blancos(s.drop_first()));
            assert(u.drop_first() =~= Seq::<char>::empty());
            assert(texto::sin_blancos(u.drop_first()) =~= Seq::<char>::empty());
            assert(texto::sin_blancos(u) =~= u);
        }
    }
}

proof fn lema_en_sin_blancos(s: Seq<char>, i: int)
    requires
        0 <= i < s.len(),
        !texto::es_blanco(s[i]),
    ensures
        texto::sin_blancos(s).contains(s[i]),
{
    let a = s.take(i);
    let b = s.skip(i);
    assert(s =~= a + b);
    texto::lema_sin_blancos_suma(a, b);
    assert(b[0] == s[i]);
    let k = texto::sin_blancos(a).len();
    assert(texto::sin_blancos(b)[0] == s[i]);
    assert(texto::sin_blancos(s)[k as int] == s[i]);
}

proof fn lema_de_sin_blancos(s: Seq<char>, c: char) -> (k: int)
    requires
        texto::sin_blancos(s).contains(c),
    ensures
        0 <= k < s.len(),
        s[k] == c,
    decreases s.len(),
{
    let r = texto::sin_blancos(s);
    let j = choose|j: int| 0 <= j < r.len() && r[j] == c;
    if s.len() == 0 {
        0
    } else {
        let t = s.drop_first();
        if texto::es_blanco(s[0]) {
            lema_de_sin_blancos(t, c) + 1
        } else if j == 0 {
            0
        } else {
            assert(texto::sin_blancos(t)[j - 1] == c);
            lema_de_sin_blancos(t, c) + 1
        }
    }
}

proof fn lema_marcas()
    ensures
        "<td"@ == seq!['<', 't', 'd'],
        "<th"@ == seq!['<', 't', 'h'],
        "</td>"@ == seq!['<', '/', 't', 'd', '>'],
        "</th>"@ == seq!['<', '/', 't', 'h', '>'],
        "<tr"@ == seq!['<', 't', 'r'],
        "</tr>"@ == seq!['<', '/', 't', 'r', '>'],
        "<table"@ == seq!['<', 't', 'a', 'b', 'l', 'e'],
        "</table>"@ == seq!['<', '/', 't', 'a', 'b', 'l', 'e', '>'],
        "<input"@ == seq!['<', 'i', 'n', 'p', 'u', 't'],
{
    reveal_strlit("<td");
    reveal_strlit("<th");
    reveal_strlit("</td>");
    reveal_strlit("</th>");
    reveal_strlit("<tr");
    reveal_strlit("</tr>");
    reveal_strlit("<table");
    reveal_strlit("</table>");
    reveal_strlit("<input");
}

proof fn lema_celda_salto(s: Seq<char>, k: int, d: int)
    requires
        0 <= k <= s.len(),
        0 <= d,
    ensures
        match siguiente_celda(s.skip(k), d) {
            Some(p) => siguiente_celda(s, d + k) == Some((p.0 + k, p.1 + k)),
            None => siguiente_celda(s, d + k) is None,
        },
{
    lema_marcas();
    let t = s.skip(k);
    texto::ley_indice_salto(s, "<td"@, k, d);
    texto::ley_indice_salto(s, "<th"@, k, d);
    texto::lema_indice(t, "<td"@, d);
    texto::lema_indice(t, "<th"@, d);
    if let Some(i) = inicio_celda(t, d) {
        assert(inicio_celda(s, d + k) == Some(i + k));
        assert(texto::aparece(t, "<td"@, i) <==> texto::aparece(s, "<td"@, i + k));
        texto::ley_indice_salto(s, seq!['>'], k, i);
        texto::lema_indice(t, seq!['>'], i);
        if let Some(j) = texto::indice(t, seq!['>'], i) {
            texto::ley_indice_salto(s, cierre_celda(t, i), k, j + 1);
        }
    }
}

proof fn lema_celdas_salto(s: Seq<char>, k: int, d: int)
    requires
        0 <= k <= s.len(),
        0 <= d,
    ensures
        celdas(s, d + k) == celdas(s.skip(k), d),
    decreases s.len() - d,
{
    let t = s.skip(k);
    lema_celda_salto(s, k, d);
    lema_siguiente_celda(t, d);
    if let Some(p) = siguiente_celda(t, d) {
        assert(t.subrange(p.0, p.1) =~= s.subrange(p.0 + k, p.1 + k));
        lema_celdas_salto(s, k, p.1 + 5);
    }
}

/// Una fila da sus celdas en su orden: la primera, lleve los atributos que lleve su marca, y
/// detras las demas. Lo mismo vale de las de encabezado.
pub proof fn ley_celdas(at: Seq<char>, x: Seq<char>, resto: Seq<char>)
    requires
        !at.contains('>'),
        !x.contains('<'),
    ensures
        celdas("<td"@ + at + seq!['>'] + x + "</td>"@ + resto, 0) == seq![texto_html(x)] + celdas(
            resto,
            0,
        ),
        celdas("<th"@ + at + seq!['>'] + x + "</th>"@ + resto, 0) == seq![texto_html(x)] + celdas(
            resto,
            0,
        ),
{
    lema_marcas();
    lema_una_celda("<td"@, at, x, "</td>"@, resto);
    lema_una_celda("<th"@, at, x, "</th>"@, resto);
}

proof fn lema_una_celda(
    abre: Seq<char>,
    at: Seq<char>,
    x: Seq<char>,
    cierra: Seq<char>,
    resto: Seq<char>,
)
    requires
        !at.contains('>'),
        !x.contains('<'),
        abre == "<td"@ && cierra == "</td>"@ || abre == "<th"@ && cierra == "</th>"@,
    ensures
        celdas(abre + at + seq!['>'] + x + cierra + resto, 0) == seq![texto_html(x)] + celdas(
            resto,
            0,
        ),
{
    lema_marcas();
    let s = abre + at + seq!['>'] + x + cierra + resto;
    let j = 3 + at.len() as int;
    let k = j + 1 + x.len() as int;
    assert(s.subrange(0, 3) =~= abre);
    assert(texto::aparece(s, abre, 0));
    assert(!texto::aparece(s, if abre == "<td"@ {
        "<th"@
    } else {
        "<td"@
    }, 0)) by {
        assert(s.subrange(0, 3)[2] == abre[2]);
    }
    texto::lema_indice(s, "<td"@, 0);
    texto::lema_indice(s, "<th"@, 0);
    assert(inicio_celda(s, 0) == Some(0int));
    assert(cierre_celda(s, 0) == cierra);
    let mayor_que = seq!['>'];
    assert(s.subrange(j, j + 1) =~= mayor_que);
    assert forall|i: int| 0 <= i < j implies !texto::aparece(s, mayor_que, i) by {
        if texto::aparece(s, mayor_que, i) {
            assert(s.subrange(i, i + 1)[0] == s[i]);
            if i >= 3 {
                assert(s[i] == at[i - 3]);
                assert(at.contains(at[i - 3]));
            } else {
                assert(s[i] == abre[i]);
            }
        }
    }
    texto::ley_primera_aparicion(s, mayor_que, 0, j);
    assert(s.subrange(k, k + 5) =~= cierra);
    assert forall|i: int| j + 1 <= i < k implies !texto::aparece(s, cierra, i) by {
        if texto::aparece(s, cierra, i) {
            assert(s.subrange(i, i + 5)[0] == s[i]);
            assert(s[i] == x[i - j - 1]);
            assert(x.contains(x[i - j - 1]));
        }
    }
    texto::ley_primera_aparicion(s, cierra, j + 1, k);
    assert(siguiente_celda(s, 0) == Some((j + 1, k)));
    assert(s.subrange(j + 1, k) =~= x);
    lema_celdas_salto(s, k + 5, 0);
    assert(s.skip(k + 5) =~= resto);
}

proof fn lema_trozo_salto(s: Seq<char>, abre: Seq<char>, cierra: Seq<char>, k: int, d: int)
    requires
        0 <= k <= s.len(),
        0 <= d,
        abre.len() > 0,
        cierra.len() > 0,
    ensures
        match siguiente_trozo(s.skip(k), abre, cierra, d) {
            Some(p) => siguiente_trozo(s, abre, cierra, d + k) == Some((p.0 + k, p.1 + k)),
            None => siguiente_trozo(s, abre, cierra, d + k) is None,
        },
{
    let t = s.skip(k);
    texto::ley_indice_salto(s, abre, k, d);
    texto::lema_indice(t, abre, d);
    if let Some(i) = texto::indice(t, abre, d) {
        texto::ley_indice_salto(s, cierra, k, i);
    }
}

proof fn lema_filas_salto(s: Seq<char>, k: int, d: int)
    requires
        0 <= k <= s.len(),
        0 <= d,
    ensures
        filas(s, d + k) == filas(s.skip(k), d),
    decreases s.len() - d,
{
    lema_marcas();
    let t = s.skip(k);
    lema_trozo_salto(s, "<tr"@, "</tr>"@, k, d);
    lema_siguiente_trozo(t, "<tr"@, "</tr>"@, d);
    if let Some(p) = siguiente_trozo(t, "<tr"@, "</tr>"@, d) {
        assert(t.subrange(p.0, p.1) =~= s.subrange(p.0 + k, p.1 + k));
        lema_filas_salto(s, k, p.1 + 5);
    }
}

/// Una tabla da sus filas en su orden, cada una con sus celdas; la que no tiene celdas no cuenta.
pub proof fn ley_filas(c: Seq<char>, resto: Seq<char>)
    requires
        !texto::contiene("<tr"@ + seq!['>'] + c + "</tr>"@.drop_last(), "</tr>"@),
    ensures
        ({
            let s = "<tr"@ + seq!['>'] + c + "</tr>"@ + resto;
            let cs = celdas(c, 0);
            &&& cs.len() > 0 ==> filas(s, 0) == seq![cs] + filas(resto, 0)
            &&& cs.len() == 0 ==> filas(s, 0) == filas(resto, 0)
        }),
{
    let s = "<tr"@ + seq!['>'] + c + "</tr>"@ + resto;
    let k = 4 + c.len() as int;
    lema_una_fila(c, resto);
    lema_celdas_de_fila(c);
    lema_filas_salto(s, k + 5, 0);
}

proof fn lema_hasta(a: Seq<char>, p: Seq<char>, resto: Seq<char>, desde: int)
    requires
        p.len() > 0,
        0 <= desde <= a.len(),
        !texto::contiene(a.skip(desde) + p.drop_last(), p),
    ensures
        texto::indice(a + p + resto, p, desde) == Some(a.len() as int),
{
    let s = a + p + resto;
    let casi = a.skip(desde) + p.drop_last();
    let n = a.len() as int;
    texto::ley_contiene(a, p, resto);
    assert forall|i: int| desde <= i < n implies !texto::aparece(s, p, i) by {
        if texto::aparece(s, p, i) {
            assert(casi.subrange(i - desde, i - desde + p.len()) =~= s.subrange(i, i + p.len()));
            assert(texto::aparece(casi, p, i - desde));
        }
    }
    texto::ley_primera_aparicion(s, p, desde, n);
}

proof fn lema_una_fila(c: Seq<char>, resto: Seq<char>)
    requires
        !texto::contiene("<tr"@ + seq!['>'] + c + "</tr>"@.drop_last(), "</tr>"@),
    ensures
        ({
            let s = "<tr"@ + seq!['>'] + c + "</tr>"@ + resto;
            let k = 4 + c.len() as int;
            &&& siguiente_trozo(s, "<tr"@, "</tr>"@, 0) == Some((0int, k))
            &&& s.subrange(0, k) == "<tr"@ + seq!['>'] + c
            &&& k + 5 <= s.len()
            &&& s.skip(k + 5) == resto
        }),
{
    lema_marcas();
    let abre = "<tr"@;
    let cierra = "</tr>"@;
    let fila = abre + seq!['>'] + c;
    let s = fila + cierra + resto;
    let k = 4 + c.len() as int;
    assert(s.subrange(0, 3) =~= abre);
    texto::ley_primera_aparicion(s, abre, 0, 0);
    assert(fila.skip(0) =~= fila);
    lema_hasta(fila, cierra, resto, 0);
    assert(s.subrange(0, k) =~= fila);
    assert(s.skip(k + 5) =~= resto);
}

proof fn lema_celdas_de_fila(c: Seq<char>)
    ensures
        celdas("<tr"@ + seq!['>'] + c, 0) == celdas(c, 0),
{
    lema_marcas();
    let fila = "<tr"@ + seq!['>'] + c;
    assert(fila[0] == '<' && fila[1] == 't' && fila[2] == 'r' && fila[3] == '>');
    lema_indice_tras(fila, "<td"@, 4);
    lema_indice_tras(fila, "<th"@, 4);
    assert(siguiente_celda(fila, 0) == siguiente_celda(fila, 4));
    lema_celdas_salto(fila, 4, 0);
    assert(fila.skip(4) =~= c);
}

proof fn lema_indice_tras(s: Seq<char>, p: Seq<char>, k: int)
    requires
        4 <= k <= s.len(),
        p.len() > 2,
        p[0] == '<',
        p[2] != s[2] || p[1] != s[1],
        forall|i: int| 1 <= i < k ==> #[trigger] s[i] != '<',
    ensures
        texto::indice(s, p, 0) == texto::indice(s, p, k),
{
    assert forall|i: int| 0 <= i < k implies !texto::aparece(s, p, i) by {
        if texto::aparece(s, p, i) {
            assert(s.subrange(i, i + p.len())[0] == s[i]);
            assert(s.subrange(i, i + p.len())[1] == s[i + 1]);
            assert(s.subrange(i, i + p.len())[2] == s[i + 2]);
        }
    }
    texto::lema_indice(s, p, 0);
    texto::lema_indice(s, p, k);
    match (texto::indice(s, p, 0), texto::indice(s, p, k)) {
        (Some(i), Some(j)) => {
            assert(texto::aparece(s, p, i) && texto::aparece(s, p, j));
        },
        (Some(i), None) => {
            assert(texto::aparece(s, p, i));
        },
        (None, Some(j)) => {
            assert(texto::aparece(s, p, j));
        },
        (None, None) => {},
    }
}

proof fn lema_tablas_salto(s: Seq<char>, k: int, d: int)
    requires
        0 <= k <= s.len(),
        0 <= d,
    ensures
        tablas(s, d + k) == tablas(s.skip(k), d),
    decreases s.len() - d,
{
    lema_marcas();
    let t = s.skip(k);
    lema_trozo_salto(s, "<table"@, "</table>"@, k, d);
    lema_siguiente_trozo(t, "<table"@, "</table>"@, d);
    if let Some(p) = siguiente_trozo(t, "<table"@, "</table>"@, d) {
        assert(t.subrange(p.0, p.1) =~= s.subrange(p.0 + k, p.1 + k));
        lema_tablas_salto(s, k, p.1);
    }
}

/// Una pagina da sus tablas en su orden, cada una desde su marca hasta su cierre.
pub proof fn ley_tablas(a: Seq<char>, t: Seq<char>, resto: Seq<char>)
    requires
        !a.contains('<'),
        !texto::contiene("<table"@ + t + "</table>"@.drop_last(), "</table>"@),
    ensures
        tablas(a + ("<table"@ + t) + "</table>"@ + resto, 0) == seq!["<table"@ + t] + tablas(resto, 0),
        tablas(a, 0).len() == 0,
{
    lema_una_tabla(a, t, resto);
    lema_tras_tabla(resto);
    let s = a + ("<table"@ + t) + "</table>"@ + resto;
    let k = (a.len() + ("<table"@ + t).len()) as int;
    lema_tablas_salto(s, k, 0);
    lema_marcas();
    texto::lema_indice(a, "<table"@, 0);
    if let Some(i) = texto::indice(a, "<table"@, 0) {
        assert(a.subrange(i, i + 6)[0] == a[i]);
        assert(a.contains(a[i]));
    }
}

proof fn lema_una_tabla(a: Seq<char>, t: Seq<char>, resto: Seq<char>)
    requires
        !a.contains('<'),
        !texto::contiene("<table"@ + t + "</table>"@.drop_last(), "</table>"@),
    ensures
        ({
            let tt = "<table"@ + t;
            let s = a + tt + "</table>"@ + resto;
            let k = (a.len() + tt.len()) as int;
            &&& siguiente_trozo(s, "<table"@, "</table>"@, 0) == Some((a.len() as int, k))
            &&& s.subrange(a.len() as int, k) == tt
            &&& k <= s.len()
            &&& s.skip(k) == "</table>"@ + resto
        }),
{
    lema_marcas();
    let abre = "<table"@;
    let cierra = "</table>"@;
    let tt = abre + t;
    let i0 = a.len() as int;
    let k = (a.len() + tt.len()) as int;
    let u = a + tt;
    let s = u + cierra + resto;
    let cola = t + cierra + resto;
    assert(s =~= a + abre + cola);
    let casi = a.skip(0) + abre.drop_last();
    assert forall|i: int| !texto::aparece(casi, abre, i) by {
        if texto::aparece(casi, abre, i) {
            assert(casi.subrange(i, i + 6)[0] == casi[i]);
            if i < i0 {
                assert(casi[i] == a[i]);
                assert(a.contains(a[i]));
            }
        }
    }
    lema_hasta(a, abre, cola, 0);
    assert(u.skip(i0) =~= tt);
    lema_hasta(u, cierra, resto, i0);
    assert(s.subrange(i0, k) =~= tt);
    assert(s.skip(k) =~= cierra + resto);
}

proof fn lema_tras_tabla(resto: Seq<char>)
    ensures
        tablas("</table>"@ + resto, 0) == tablas(resto, 0),
{
    lema_marcas();
    let u = "</table>"@ + resto;
    assert(u[0] == '<' && u[1] == '/' && u[2] == 't' && u[3] == 'a' && u[4] == 'b' && u[5] == 'l'
        && u[6] == 'e' && u[7] == '>');
    lema_indice_tras(u, "<table"@, 8);
    assert(siguiente_trozo(u, "<table"@, "</table>"@, 0) == siguiente_trozo(
        u,
        "<table"@,
        "</table>"@,
        8,
    ));
    lema_tablas_salto(u, 8, 0);
    assert(u.skip(8) =~= resto);
}

/// Cada fila da una linea, con sus celdas separadas por comas.
pub proof fn ley_lineas_csv(fs: Seq<Seq<Seq<char>>>, f: Seq<Seq<char>>)
    ensures
        lineas_csv(fs.push(f)) == lineas_csv(fs) + texto::unido(f, seq![',']) + seq!['\n'],
        lineas_csv(seq![]).len() == 0,
{
    reveal_strlit(",");
    reveal_strlit("\n");
    assert(","@ =~= seq![',']);
    assert("\n"@ =~= seq!['\n']);
    assert(fs.push(f).drop_last() =~= fs);
}

/// Un atributo es lo que va entre su marca y la primera comilla que la sigue.
pub proof fn ley_atributo(a: Seq<char>, marca: Seq<char>, v: Seq<char>, b: Seq<char>)
    requires
        marca.len() > 0,
        !texto::contiene(a + marca.drop_last(), marca),
        !v.contains('"'),
    ensures
        atributo(a + marca + v + seq!['"'] + b, marca) == v,
        atributo(a, marca).len() == 0,
{
    let s = a + marca + v + seq!['"'] + b;
    let n = a.len() as int;
    let casi = a + marca.drop_last();
    assert(s.subrange(n, n + marca.len()) =~= marca);
    assert forall|i: int| 0 <= i < n implies !texto::aparece(s, marca, i) by {
        if texto::aparece(s, marca, i) {
            assert(casi.subrange(i, i + marca.len()) =~= s.subrange(i, i + marca.len()));
            assert(texto::aparece(casi, marca, i));
        }
    }
    texto::ley_primera_aparicion(s, marca, 0, n);
    let t = s.skip(n + marca.len());
    let c = seq!['"'];
    assert(t =~= v + c + b);
    assert(t.subrange(v.len() as int, v.len() as int + 1) =~= c);
    assert forall|i: int| 0 <= i < v.len() implies !texto::aparece(t, c, i) by {
        if texto::aparece(t, c, i) {
            assert(t.subrange(i, i + 1)[0] == t[i]);
            assert(t[i] == v[i]);
            assert(v.contains(v[i]));
        }
    }
    texto::ley_primera_aparicion(t, c, 0, v.len() as int);
    assert(t.take(v.len() as int) =~= v);
    texto::lema_indice(a, marca, 0);
    if let Some(i) = texto::indice(a, marca, 0) {
        assert(casi.subrange(i, i + marca.len()) =~= a.subrange(i, i + marca.len()));
        assert(texto::aparece(casi, marca, i));
    }
}

/// Una etiqueta que cabe en la ventana llega hasta su cierre.
pub proof fn ley_etiqueta(tag: Seq<char>, resto: Seq<char>)
    requires
        !tag.contains('>'),
        texto::bytes_de(tag) < VENTANA,
        ventana(tag + seq!['>'] + resto) is Some,
    ensures
        etiqueta(tag + seq!['>'] + resto) == tag,
{
    let s = tag + seq!['>'] + resto;
    let w = ventana(s)->0;
    lema_ventana(s);
    texto::lema_indice_byte(s, VENTANA as int);
    let n = tag.len() as int;
    let i: int = if texto::bytes_de(s) <= VENTANA {
        s.len() as int
    } else {
        texto::indice_byte(s, VENTANA as int)->0
    };
    assert(s.take(s.len() as int) =~= s);
    assert(w == s.take(i));
    if i <= n {
        if texto::bytes_de(s) > VENTANA {
            assert(tag =~= s.take(i) + tag.skip(i));
            texto::lema_bytes_suma(s.take(i), tag.skip(i));
            texto::lema_bytes_cotas(tag.skip(i));
        }
    }
    assert(i > n);
    let c = seq!['>'];
    assert(w.subrange(n, n + 1) =~= c);
    assert forall|j: int| 0 <= j < n implies !texto::aparece(w, c, j) by {
        if texto::aparece(w, c, j) {
            assert(w.subrange(j, j + 1)[0] == w[j]);
            assert(w[j] == tag[j]);
            assert(tag.contains(tag[j]));
        }
    }
    texto::ley_primera_aparicion(w, c, 0, n);
    assert(w.take(n) =~= tag);
}

proof fn lema_campos_salto(s: Seq<char>, k: int, d: int)
    requires
        0 <= k <= s.len(),
        0 <= d,
    ensures
        campos(s, d + k) == campos(s.skip(k), d),
    decreases s.len() - d,
{
    lema_marcas();
    let t = s.skip(k);
    texto::ley_indice_salto(s, "<input"@, k, d);
    texto::lema_indice(t, "<input"@, d);
    if let Some(i) = texto::indice(t, "<input"@, d) {
        assert(t.skip(i) =~= s.skip(i + k));
        lema_campos_salto(s, k, i + 6);
    }
}

/// Los campos de una pagina salen en su orden: el de la primera etiqueta de entrada, si su nombre
/// empieza por dos rayas bajas, y detras los demas.
pub proof fn ley_campos(a: Seq<char>, t: Seq<char>, resto: Seq<char>)
    requires
        !a.contains('<'),
        !t.contains('<'),
        !t.contains('>'),
        texto::bytes_de("<input"@ + t) < VENTANA,
        ventana(("<input"@ + t) + seq!['>'] + resto) is Some,
    ensures
        ({
            let html = a + ("<input"@ + t) + seq!['>'] + resto;
            let nombre = atributo("<input"@ + t, "name=\""@);
            let valor = atributo("<input"@ + t, "value=\""@);
            &&& texto::empieza(nombre, "__"@) ==> campos(html, 0) == seq![(nombre, valor)] + campos(
                resto,
                0,
            )
            &&& !texto::empieza(nombre, "__"@) ==> campos(html, 0) == campos(resto, 0)
        }),
{
    lema_marcas();
    let marca = "<input"@;
    let tag = marca + t;
    let html = a + tag + seq!['>'] + resto;
    let n = a.len() as int;
    assert(html.subrange(n, n + 6) =~= marca);
    assert forall|i: int| 0 <= i < n implies !texto::aparece(html, marca, i) by {
        if texto::aparece(html, marca, i) {
            assert(html.subrange(i, i + 6)[0] == html[i]);
            assert(html[i] == a[i]);
            assert(a.contains(a[i]));
        }
    }
    texto::ley_primera_aparicion(html, marca, 0, n);
    let u = html.skip(n);
    assert(u =~= tag + seq!['>'] + resto);
    assert(!tag.contains('>')) by {
        assert forall|i: int| 0 <= i < tag.len() implies tag[i] != '>' by {
            if i >= 6 {
                assert(tag[i] == t[i - 6]);
                assert(t.contains(t[i - 6]));
            }
        }
    }
    ley_etiqueta(tag, resto);
    let m = (n + tag.len() + 1) as int;
    assert forall|i: int| n + 6 <= i < m implies !texto::aparece(html, marca, i) by {
        if texto::aparece(html, marca, i) {
            assert(html.subrange(i, i + 6)[0] == html[i]);
            if i < m - 1 {
                assert(html[i] == t[i - n - 6]);
                assert(t.contains(t[i - n - 6]));
            } else {
                assert(html[i] == '>');
            }
        }
    }
    texto::lema_indice(html, marca, n + 6);
    texto::lema_indice(html, marca, m);
    match (texto::indice(html, marca, n + 6), texto::indice(html, marca, m)) {
        (Some(i), Some(j)) => {
            assert(texto::aparece(html, marca, i) && texto::aparece(html, marca, j));
        },
        (Some(i), None) => {
            assert(texto::aparece(html, marca, i));
        },
        (None, Some(j)) => {
            assert(texto::aparece(html, marca, j));
        },
        (None, None) => {},
    }
    assert(campos(html, n + 6) == campos(html, m));
    lema_campos_salto(html, m, 0);
    assert(html.skip(m) =~= resto);
}

/// La direccion del informe lleva cada dato tras su parametro.
pub proof fn ley_direccion(
    df: Seq<char>,
    dt: Seq<char>,
    art_i: Seq<char>,
    art_f: Seq<char>,
    accion: Seq<char>,
)
    ensures
        ({
            let d = direccion(df, dt, art_i, art_f, accion);
            &&& texto::empieza(d, BASE@)
            &&& texto::contiene(d, accion + "&valueArtI="@ + art_i + "&valueArtF="@ + art_f + "&"@)
            &&& texto::contiene(d, "&valueFI="@ + df + "&valueFF="@ + dt + "&"@)
        }),
{
    let d = direccion(df, dt, art_i, art_f, accion);
    reveal_strlit("&");
    reveal_strlit("&valueAlmI=&valueAlmF=&valueFI=");
    reveal_strlit("&valueFI=");
    reveal_strlit("&valueGrat=1&valueDocs=01F%2c+01B%2c+01NCR%2c+01NDB");
    let ruta = "/ESTADISTICASVENTAS/Estadistica11.aspx?valueCli=&valueVend=&valueVend2=&valueCli2=&valueSucI=&valueSucF=&accion="@;
    let alm = "&valueAlmI=&valueAlmF=&valueFI="@;
    let cola = "&valueGrat=1&valueDocs=01F%2c+01B%2c+01NCR%2c+01NDB"@;
    let arts = accion + "&valueArtI="@ + art_i + "&valueArtF="@ + art_f;
    let fechas = df + "&valueFF="@ + dt;
    let y = "&"@;
    lema_tramos(BASE@, ruta, arts, alm, fechas, cola);
    assert(d =~= BASE@ + ruta + arts + alm + fechas + cola);
    texto::ley_contiene(Seq::empty(), BASE@, ruta + arts + alm + fechas + cola);
    let alm2 = alm.skip(1);
    assert(alm =~= y + alm2);
    texto::ley_contiene(BASE@ + ruta, arts + y, alm2 + fechas + cola);
    assert(BASE@ + ruta + (arts + y) + (alm2 + fechas + cola) =~= BASE@ + ruta + arts + (y + alm2)
        + fechas + cola);
    let alm1 = alm.take(22);
    assert(alm =~= alm1 + "&valueFI="@);
    let cola2 = cola.skip(1);
    assert(cola =~= y + cola2);
    texto::ley_contiene(BASE@ + ruta + arts + alm1, "&valueFI="@ + fechas + y, cola2);
    assert(BASE@ + ruta + arts + alm1 + ("&valueFI="@ + fechas + y) + cola2 =~= BASE@ + ruta + arts
        + (alm1 + "&valueFI="@) + fechas + (y + cola2));
    assert("&valueFI="@ + fechas + y =~= "&valueFI="@ + df + "&valueFF="@ + dt + y);
    assert(arts + y =~= accion + "&valueArtI="@ + art_i + "&valueArtF="@ + art_f + y);
}

proof fn lema_tramos(
    a: Seq<char>,
    b: Seq<char>,
    c: Seq<char>,
    d: Seq<char>,
    e: Seq<char>,
    f: Seq<char>,
)
    ensures
        a + b + c + d + e + f == a + (b + c + d + e + f),
{
    assert(a + b + c + d + e + f =~= a + (b + c + d + e + f));
}

/// La hora va al final de la direccion, como un parametro mas o como el primero.
pub proof fn ley_sin_cache(url: Seq<char>, ahora: nat)
    ensures
        url.contains('?') ==> sin_cache(url, ahora) == url + "&_t="@ + texto::decimal(ahora),
        !url.contains('?') ==> sin_cache(url, ahora) == url + "?_t="@ + texto::decimal(ahora),
{
    reveal_strlit("?");
    if url.contains('?') {
        let i = choose|i: int| 0 <= i < url.len() && url[i] == '?';
        assert(url.subrange(i, i + 1) =~= "?"@);
        assert(texto::aparece(url, "?"@, i));
    } else if texto::contiene(url, "?"@) {
        let i = choose|i: int| texto::aparece(url, "?"@, i);
        assert(url.subrange(i, i + 1)[0] == url[i]);
    }
}

/// Lo que se ensena de un texto es su comienzo, entero si cabe.
pub proof fn ley_comienzo(s: Seq<char>, b: Seq<u8>, n: int)
    requires
        n >= 0,
    ensures
        s.len() <= n ==> comienzo(s, n) == s,
        s.len() > n ==> comienzo(s, n).len() == n && comienzo(s, n) + s.skip(n) == s,
        b.len() <= n ==> primeros(b, n) == b,
        b.len() > n ==> primeros(b, n).len() == n && primeros(b, n) + b.skip(n) == b,
{
    if s.len() > n {
        assert(s.take(n) + s.skip(n) =~= s);
    }
    if b.len() > n {
        assert(b.take(n) + b.skip(n) =~= b);
    }
}

/// Las firmas de lo descargado: se reconocen por su comienzo y ninguna es otra.
pub proof fn ley_firmas(via: Via, x: u8, y: u8, z: u8, resto: Seq<u8>)
    ensures
        es_ole(seq![0xD0u8, 0xCFu8, 0x11u8, 0xE0u8] + resto),
        es_zip(seq![0x50u8, 0x4Bu8, x, y] + resto),
        es_html(Via::Http, seq![0x3Cu8, x, y, z] + resto),
        es_html(Via::Navegador, seq![0x3Cu8, x, y, z] + resto) <==> x == 0x21 || x == 0x68 || x
            == 0x48,
        resto.len() < 4 ==> !es_ole(resto) && !es_zip(resto) && !es_html(via, resto),
        !(es_ole(resto) && es_zip(resto)) && !(es_ole(resto) && es_html(via, resto)) && !(es_zip(
            resto,
        ) && es_html(via, resto)),
        es_ole(resto) ==> resto.take(4) == seq![0xD0u8, 0xCFu8, 0x11u8, 0xE0u8],
        es_zip(resto) ==> resto.take(2) == seq![0x50u8, 0x4Bu8],
        es_html(via, resto) ==> resto[0] == 0x3C,
{
}

/// Un aviso es corto y se conoce por sus primeros trescientos bytes.
pub proof fn ley_aviso(b: Seq<u8>, c: Seq<u8>)
    ensures
        b.len() >= 512 ==> !es_aviso(b),
        300 <= b.len() < 512 && 300 <= c.len() < 512 && b.take(300) == c.take(300) ==> (es_aviso(b)
            <==> es_aviso(c)),
        ({
            let cabeza = texto::minusculas(
                texto_de_bytes(
                    if b.len() <= 300 {
                        b
                    } else {
                        b.take(300)
                    },
                ),
            );
            b.len() < 512 ==> (es_aviso(b) <==> texto::contiene(cabeza, "<html"@)
                || texto::contiene(cabeza, "error"@) || texto::contiene(cabeza, "exception"@))
        }),
{
    assert(b.take(b.len() as int) =~= b);
    if b.len() == 300 {
        assert(b.take(300) =~= b);
    }
    if c.len() == 300 {
        assert(c.take(300) =~= c);
    }
}

/// Las paginas se reconocen por lo que llevan dentro, este donde este.
pub proof fn ley_paginas(a: Seq<char>, b: Seq<char>, url: Seq<char>, cuerpo: Seq<char>)
    ensures
        pagina_acceso(a + "id=\"txtnombre\""@ + b),
        pagina_acceso(a + "id='txtnombre'"@ + b),
        sesion_perdida(a + "sesion perdida"@ + b),
        rechazado(url, cuerpo) <==> texto::contiene(url, "login"@) && texto::contiene(
            cuerpo,
            "txtnombre"@,
        ) && texto::contiene(cuerpo, "txtpass"@),
{
    texto::ley_contiene(a, "id=\"txtnombre\""@, b);
    texto::ley_contiene(a, "id='txtnombre'"@, b);
    texto::ley_contiene(a, "sesion perdida"@, b);
}

/// Cada galleta va sin blancos en los extremos, en su orden y separada de la siguiente.
pub proof fn ley_galletas(c: Seq<char>, resto: Seq<char>)
    requires
        !c.contains(';'),
    ensures
        galletas(c) == texto::recortado(c),
        galletas(c + seq![';'] + resto) == texto::recortado(c) + "; "@ + galletas(resto),
{
    let nada = Seq::<char>::empty();
    let f = |x: Seq<char>| texto::recortado(x);
    assert forall|i: int| 0 <= i < c.len() implies #[trigger] c[i] != ';' by {
        assert(c.contains(c[i]));
    }
    texto::lema_partes_tramo(nada, c, nada, ';');
    assert(c + nada =~= c);
    assert(nada + c =~= c);
    assert(texto::partes(c, ';') =~= seq![c]);
    assert(texto::partes(c, ';').map_values(f) =~= seq![texto::recortado(c)]);
    texto::lema_partes_suma(nada, c, resto, ';');
    texto::ley_partes(resto, ';');
    let v = texto::partes(resto, ';').map_values(f);
    assert(texto::partes(c + seq![';'] + resto, ';').map_values(f) =~= seq![texto::recortado(c)] + v);
    texto::lema_unido_primero(texto::recortado(c), v, "; "@);
}

/// Entre dos palabras de una celda queda un solo espacio, haya los blancos que haya.
pub proof fn ley_un_espacio(a: Seq<char>, b: Seq<char>, c: Seq<char>)
    requires
        a.len() > 0,
        b.len() > 0,
        c.len() > 0,
        texto::sin_blanco_alguno(a),
        texto::todo_blanco(b),
        texto::sin_blanco_alguno(c),
        !(a + b + c).contains('&'),
        !(a + b + c).contains(','),
    ensures
        texto_html(a + b + c) == a + seq![' '] + c,
        texto_html(b + a) == texto_html(a),
{
    reveal_strlit(" ");
    let nada = Seq::<char>::empty();
    let s = a + b + c;
    assert(s[0] == a[0] && s.last() == c.last());
    assert(!texto::es_blanco(a[0]) && !texto::es_blanco(c[c.len() - 1]));
    texto::ley_recorte(nada, s, nada);
    lema_ninguna(s);
    texto::ley_palabras_en_orden(a, b, c);
    texto::ley_palabras_en_orden(c, b, nada);
    let ps = seq![a] + seq![c];
    assert(texto::palabras(s) =~= ps);
    texto::lema_unido_primero(a, seq![c], " "@);
    let u = a + seq![' '] + c;
    assert(texto::unido(ps, " "@) =~= u);
    assert forall|i: int| 0 <= i < u.len() implies #[trigger] u[i] != ',' by {
        if i < a.len() {
            assert(u[i] == s[i]);
            assert(s.contains(s[i]));
        } else if i > a.len() {
            assert(u[i] == s[i - 1 + b.len()]);
            assert(s.contains(s[i - 1 + b.len()]));
        }
    }
    texto::lema_reemplazo_nulo(u, ',', " "@);
    assert(!texto::es_blanco(a[a.len() - 1]));
    texto::ley_recorte(b, a, nada);
    assert(b + a + nada =~= b + a);
}

/// Si ninguna tabla tiene mas filas que la que ya se tenia, se queda esa: de las iguales, la
/// primera.
pub proof fn ley_tabla_primera(ts: Seq<Seq<char>>, mejor: Seq<Seq<Seq<char>>>)
    requires
        forall|i: int| 0 <= i < ts.len() ==> #[trigger] filas(ts[i], 0).len() <= mejor.len(),
    ensures
        mayor(ts, mejor) == mejor,
    decreases ts.len(),
{
    if ts.len() > 0 {
        assert(filas(ts[0], 0).len() <= mejor.len());
        let us = ts.drop_first();
        assert forall|i: int| 0 <= i < us.len() implies #[trigger] filas(us[i], 0).len()
            <= mejor.len() by {
            assert(us[i] == ts[i + 1]);
        }
        ley_tabla_primera(us, mejor);
    }
}

/// El archivo de un rango lleva su nombre y el de su parte.
pub proof fn ley_nombre_de_libro(label: Seq<char>, suffix: Seq<char>)
    ensures
        texto::empieza(nombre_xls(label, suffix), "ventas_"@ + label),
        texto::termina(nombre_xls(label, suffix), suffix + ".xls"@),
        nombre_xls(label, suffix).len() == label.len() + suffix.len() + 11,
{
    reveal_strlit("ventas_");
    reveal_strlit(".xls");
    let nada = Seq::<char>::empty();
    texto::ley_contiene(nada, "ventas_"@ + label, suffix + ".xls"@);
    texto::ley_contiene("ventas_"@ + label, suffix + ".xls"@, nada);
    assert(nombre_xls(label, suffix) =~= ("ventas_"@ + label) + (suffix + ".xls"@));
}

/// Los limites: filas que ya bastan, bytes en que se busca el cierre de una etiqueta, y el sitio
/// del que se baja todo.
pub proof fn ley_limites()
    ensures
        FILAS_SUFICIENTES == 50_000,
        VENTANA == 200_000,
        BASE@ == "http://intranet.cipsa.com.pe"@,
        BTN_EXPORT@ == "ctl00$ContentPlaceHolder1$btnExportar"@,
{
}

} // verus!
