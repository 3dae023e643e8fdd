use g360_db_ventas::biff::{estado_libro, Estado};
use g360_db_ventas::models::Monto;
use g360_db_ventas::tabla::abrir_tabla;
use g360_db_ventas::xls::{
    hoja_de, lector_de, primera_hoja, reales, registros_hoja, xls_to_csv, Apertura, Celda,
    Contenido, ErrorHoja, Lector,
};

fn registro(tipo: u16, datos: &[u8]) -> Vec<u8> {
    let mut r: Vec<u8> = Vec::new();
    r.extend_from_slice(&tipo.to_le_bytes());
    r.extend_from_slice(&(datos.len() as u16).to_le_bytes());
    r.extend_from_slice(datos);
    r
}

fn celda(fila: u16, columna: u16) -> Vec<u8> {
    let mut r: Vec<u8> = Vec::new();
    r.extend_from_slice(&fila.to_le_bytes());
    r.extend_from_slice(&columna.to_le_bytes());
    r.extend_from_slice(&[0, 0]);
    r
}

fn texto(fila: u16, columna: u16, s: &str) -> Vec<u8> {
    let mut d = celda(fila, columna);
    d.extend_from_slice(&(s.len() as u16).to_le_bytes());
    d.push(0);
    d.extend_from_slice(s.as_bytes());
    registro(0x0204, &d)
}

fn numero(fila: u16, columna: u16, x: f64) -> Vec<u8> {
    let mut d = celda(fila, columna);
    d.extend_from_slice(&x.to_le_bytes());
    registro(0x0203, &d)
}

fn logico(fila: u16, columna: u16, b: bool) -> Vec<u8> {
    let mut d = celda(fila, columna);
    d.extend_from_slice(&[b as u8, 0]);
    registro(0x0205, &d)
}

fn comienzo(tipo: u16) -> Vec<u8> {
    let mut d: Vec<u8> = Vec::new();
    d.extend_from_slice(&0x0600u16.to_le_bytes());
    d.extend_from_slice(&tipo.to_le_bytes());
    d.extend_from_slice(&[0; 12]);
    registro(0x0809, &d)
}

/// Un libro con una hoja llamada `H` y esas celdas.
fn libro(celdas: &[Vec<u8>]) -> Vec<u8> {
    libro_con(&[], celdas)
}

/// Un libro con esos registros comunes, una hoja llamada `H` y esas celdas.
fn libro_con(comunes: &[Vec<u8>], celdas: &[Vec<u8>]) -> Vec<u8> {
    let mut flujo = flujo_con(comunes, celdas);
    assert!(flujo.len() <= 4096);
    flujo.resize(4096, 0);
    let mut r = cabecera(0, 1);
    r.extend(tabla(&[MARCA_TABLA, FIN, 3, 4, 5, 6, 7, 8, 9, FIN]));
    r.extend(directorio(2));
    r.extend(flujo);
    r
}

/// Los registros de un libro con esos comunes, una hoja llamada `H` y esas celdas.
fn flujo_con(comunes: &[Vec<u8>], celdas: &[Vec<u8>]) -> Vec<u8> {
    let mut flujo = comienzo(0x0005);
    for c in comunes {
        flujo.extend_from_slice(c);
    }
    let inicio = flujo.len() + 4 + 9 + 4;
    let mut hoja: Vec<u8> = Vec::new();
    hoja.extend_from_slice(&(inicio as u32).to_le_bytes());
    hoja.extend_from_slice(&[0, 0, 1, 0, b'H']);
    flujo.extend(registro(0x0085, &hoja));
    flujo.extend(registro(0x000A, &[]));
    assert_eq!(flujo.len(), inicio);
    flujo.extend(comienzo(0x0010));
    for c in celdas {
        flujo.extend_from_slice(c);
    }
    flujo.extend(registro(0x000A, &[]));
    flujo
}

const FIN: u32 = 0xFFFF_FFFE;

const MARCA_TABLA: u32 = 0xFFFF_FFFD;

/// La cabecera de un contenedor con la tabla de sectores y el directorio en esos sectores.
fn cabecera(tabla: u32, directorio: u32) -> Vec<u8> {
    let mut r: Vec<u8> = vec![0; 512];
    r[0..8].copy_from_slice(&[0xD0, 0xCF, 0x11, 0xE0, 0xA1, 0xB1, 0x1A, 0xE1]);
    r[26] = 3;
    r[28] = 0xFE;
    r[29] = 0xFF;
    r[30] = 9;
    r[32] = 6;
    r[44] = 1;
    r[48..52].copy_from_slice(&directorio.to_le_bytes());
    r[56..60].copy_from_slice(&4096u32.to_le_bytes());
    r[60..64].copy_from_slice(&FIN.to_le_bytes());
    r[68..72].copy_from_slice(&FIN.to_le_bytes());
    r[76..80].copy_from_slice(&tabla.to_le_bytes());
    for b in r[80..512].iter_mut() {
        *b = 0xFF;
    }
    r
}

/// Un sector con esos numeros.
fn tabla(numeros: &[u32]) -> Vec<u8> {
    let mut r: Vec<u8> = Vec::new();
    for n in numeros {
        r.extend_from_slice(&n.to_le_bytes());
    }
    r.resize(512, 0xFF);
    r
}

/// Un directorio con un libro de 4096 bytes desde ese sector.
fn directorio(inicio: u32) -> Vec<u8> {
    let mut r = entrada("Root Entry", 5, FIN, 0);
    r.extend(entrada("Workbook", 2, inicio, 4096));
    r.resize(512, 0);
    r
}

fn entrada(nombre: &str, tipo: u8, inicio: u32, largo: u32) -> Vec<u8> {
    let mut r: Vec<u8> = vec![0; 128];
    let mut k = 0;
    for c in nombre.encode_utf16() {
        r[k..k + 2].copy_from_slice(&c.to_le_bytes());
        k += 2;
    }
    r[64] = (k + 2) as u8;
    r[66] = tipo;
    r[116..120].copy_from_slice(&inicio.to_le_bytes());
    r[120..124].copy_from_slice(&largo.to_le_bytes());
    r
}

fn celdas_ventas() -> Vec<Vec<u8>> {
    vec![
        texto(0, 0, "CANTIDAD"),
        texto(0, 1, " NOM_ARTICULO "),
        texto(0, 2, "X"),
        numero(1, 0, 2.5),
        texto(1, 1, "FORRO, A4"),
        logico(1, 2, true),
        numero(3, 0, -1.0),
        numero(3, 2, 7.25),
    ]
}

fn ventas() -> Vec<u8> {
    libro(&celdas_ventas())
}

/// El libro se puede leer y es el de `ventas`.
fn leido(datos: &[u8]) {
    assert_eq!(estado_libro(datos), Estado::Sano);
    match hoja(datos, Some("xls")) {
        Ok(h) => comprobar(h),
        Err(_) => panic!("el libro se lee"),
    }
}

/// El libro tiene un error que se ve al leerlo.
fn erroneo(datos: &[u8]) {
    assert_eq!(estado_libro(datos), Estado::Sano);
    assert!(matches!(hoja(datos, Some("xls")), Err(ErrorHoja::Abrir(m)) if m != "libro danado"));
}

fn comprobar(h: Vec<Vec<Celda>>) {
    assert_eq!(h.len(), 4);
    assert!(h.iter().all(|f| f.len() == 3));
    assert!(matches!(&h[0][1], Celda::Texto(s) if s == " NOM_ARTICULO "));
    assert!(matches!(h[1][2], Celda::Logico(true)));
    assert!(matches!(h[2][0], Celda::Vacia));
    let rs: Vec<f64> = reales(&h).iter().map(|m| f64::from_bits(m.0)).collect();
    assert_eq!(rs, vec![2.5, -1.0, 7.25]);
    let textos: Vec<String> = rs.iter().map(|x| format!("{x}")).collect();
    let (bytes, n) = match xls_to_csv(&h, &textos) {
        Ok(p) => p,
        Err(_) => panic!("la hoja tiene filas"),
    };
    assert_eq!(n, 3);
    let csv = "CANTIDAD,NOM_ARTICULO,X\n2.5,\"FORRO, A4\",true\n-1,,7.25\n";
    assert_eq!(String::from_utf8(bytes.clone()).unwrap(), csv);
    let t = abrir_tabla(&bytes).unwrap();
    let mut filas = vec![t.cabecera.clone()];
    filas.extend(t.filas.clone());
    assert_eq!(filas, registros_hoja(&h, &textos));
}

fn hoja(datos: &[u8], ext: Option<&str>) -> Result<Vec<Vec<Celda>>, ErrorHoja> {
    match primera_hoja(datos, ext) {
        Apertura::Hoja(h) => h,
        Apertura::Pendiente(l) => panic!("queda para {l:?}"),
    }
}

fn pendiente(datos: &[u8], ext: Option<&str>) -> Option<Lector> {
    match primera_hoja(datos, ext) {
        Apertura::Hoja(_) => None,
        Apertura::Pendiente(l) => Some(l),
    }
}

#[test]
fn hoja_de_un_xls() {
    match hoja(&ventas(), Some("xls")) {
        Ok(h) => comprobar(h),
        Err(_) => panic!("el libro se lee"),
    }
    assert!(hoja(&ventas(), Some("xla")).is_ok());
}

#[test]
fn hoja_sin_extension_conocida() {
    match hoja(&ventas(), None) {
        Ok(h) => comprobar(h),
        Err(_) => panic!("el libro se reconoce"),
    }
    assert!(hoja(&ventas(), Some("txt")).is_ok());
    assert_eq!(pendiente(b"no es un libro", None), Some(Lector::Detectar));
}

#[test]
fn libro_que_no_se_abre() {
    assert!(matches!(hoja(b"no es un libro", Some("xls")), Err(ErrorHoja::Abrir(_))));
    assert_eq!(estado_libro(b"no es un libro"), Estado::Sano);
}

#[test]
fn lectores_por_extension() {
    assert_eq!(lector_de(Some("xls")), Lector::Xls);
    assert_eq!(lector_de(Some("xla")), Lector::Xls);
    for e in ["xlsx", "xlsm", "xlam"] {
        assert_eq!(lector_de(Some(e)), Lector::Xlsx);
    }
    assert_eq!(lector_de(Some("xlsb")), Lector::Xlsb);
    assert_eq!(lector_de(Some("ods")), Lector::Ods);
    assert_eq!(lector_de(Some("XLS")), Lector::Detectar);
    assert_eq!(lector_de(None), Lector::Detectar);
    assert_eq!(pendiente(&ventas(), Some("xlsx")), Some(Lector::Xlsx));
    assert_eq!(pendiente(&ventas(), Some("ods")), Some(Lector::Ods));
}

#[test]
fn hoja_de_un_libro_abierto() {
    assert!(matches!(hoja_de(Err("x".to_string())), Err(ErrorHoja::Abrir(m)) if m == "x"));
    let c = Contenido { nombres: vec![], celdas: Ok(vec![]) };
    assert!(matches!(hoja_de(Ok(c)), Err(ErrorHoja::SinHojas)));
    let c = Contenido { nombres: vec!["H".to_string()], celdas: Err("mal".to_string()) };
    assert!(matches!(hoja_de(Ok(c)), Err(ErrorHoja::Leer(n, m)) if n == "H" && m == "mal"));
    let c = Contenido { nombres: vec!["H".to_string()], celdas: Ok(vec![vec![Celda::Entero(1)]]) };
    assert!(matches!(hoja_de(Ok(c)), Ok(h) if h.len() == 1));
}

fn danado(datos: &[u8]) {
    assert_eq!(estado_libro(datos), Estado::Danado);
    assert!(matches!(hoja(datos, Some("xls")), Err(ErrorHoja::Abrir(m)) if m == "libro danado"));
    assert!(matches!(hoja(datos, None), Err(ErrorHoja::Abrir(m)) if m == "libro danado"));
}

#[test]
fn contenedores_danados() {
    let sano = ventas();
    assert_eq!(estado_libro(&sano), Estado::Sano);
    // Solo la cabecera, como en una bajada cortada.
    danado(&sano[..512]);
    // En medio de una entrada del directorio.
    danado(&sano[..1200]);
    // En medio de los registros: el error se ve al leerlos.
    erroneo(&sano[..1700]);
    // Tras el ultimo registro no hace falta mas.
    leido(&sano[..2000]);
    // Sin directorio no es un libro, y se ve al abrirlo.
    assert_eq!(estado_libro(&sano[..1024]), Estado::Sano);
    assert!(matches!(hoja(&sano[..1024], Some("xls")), Err(ErrorHoja::Abrir(_))));
    // La tabla de tablas sigue en un sector que se nombra a si mismo.
    let mut d = sano.clone();
    d[68..72].copy_from_slice(&10u32.to_le_bytes());
    let mut propio = vec![0xFFu8; 512];
    propio[508..512].copy_from_slice(&10u32.to_le_bytes());
    d.extend_from_slice(&propio);
    danado(&d);
    // La cadena del directorio da vueltas.
    let mut d = sano.clone();
    d[516..520].copy_from_slice(&1u32.to_le_bytes());
    danado(&d);
    // El flujo del libro pasa por un sector que no hay.
    let mut d = sano.clone();
    d[520..524].copy_from_slice(&100u32.to_le_bytes());
    danado(&d);
    // Una tabla de sectores que no esta.
    let mut d = sano.clone();
    d[76..80].copy_from_slice(&100u32.to_le_bytes());
    danado(&d);
}

#[test]
fn ultimo_sector_incompleto() {
    let sano = ventas();
    leido(&sano[..sano.len() - 100]);
    // La tabla de sectores es lo ultimo, y solo estan los numeros que se usan.
    let mut flujo = flujo_con(&[], &celdas_ventas());
    flujo.resize(4096, 0);
    let mut d = cabecera(9, 0);
    d.extend(directorio(1));
    d.extend(&flujo);
    d.extend(tabla(&[FIN, 2, 3, 4, 5, 6, 7, 8, FIN, MARCA_TABLA]));
    leido(&d);
    leido(&d[..d.len() - 512 + 40]);
    danado(&d[..d.len() - 512 + 38]);
    danado(&d[..d.len() - 512 + 32]);
    // El directorio es lo ultimo, y de sus entradas los cuatro ultimos bytes no cuentan.
    let mut d = cabecera(0, 9);
    d.extend(tabla(&[MARCA_TABLA, 2, 3, 4, 5, 6, 7, 8, FIN, FIN]));
    d.extend(&flujo);
    d.extend(directorio(1));
    leido(&d);
    leido(&d[..d.len() - 512 + 256]);
    leido(&d[..d.len() - 512 + 252]);
    danado(&d[..d.len() - 512 + 251]);
    // La tabla de tablas sigue en un sector con un solo numero, o que acaba donde empieza.
    let mut d = sano.clone();
    d[68..72].copy_from_slice(&10u32.to_le_bytes());
    leido(&d);
    d.extend_from_slice(&FIN.to_le_bytes());
    leido(&d);
    d.extend_from_slice(&[0xFF, 0xFF]);
    danado(&d);
}

#[test]
fn sectores_tras_el_final() {
    // Tras un sector que no esta entero se pueden pedir los siguientes, de uno en uno.
    let mut d = cabecera(0, 1);
    d.extend(tabla(&[MARCA_TABLA, FIN, 3, 4, 5, FIN]));
    d.extend(directorio(2));
    d.extend(flujo_con(&[], &celdas_ventas()));
    leido(&d);
    // Pero no saltarse uno.
    d[512 + 12..512 + 16].copy_from_slice(&5u32.to_le_bytes());
    danado(&d);
}

#[test]
fn medidas_de_mas() {
    let sano = ventas();
    // El directorio y la tabla de sectores dicen ocupar mas que el libro.
    let mut d = sano.clone();
    d[40..44].copy_from_slice(&100u32.to_le_bytes());
    d[44..48].copy_from_slice(&5000u32.to_le_bytes());
    leido(&d);
    // El flujo tambien.
    let mut d = sano.clone();
    let p = 1024 + 128 + 120;
    d[p..p + 4].copy_from_slice(&1_000_000u32.to_le_bytes());
    leido(&d);
    // Para tanto no hay sitio.
    d[p..p + 4].copy_from_slice(&0xFFFF_FFFFu32.to_le_bytes());
    danado(&d);
    let mut d = sano.clone();
    d[40..44].copy_from_slice(&0xFFFF_FFFFu32.to_le_bytes());
    danado(&d);
}

#[test]
fn nombres_con_marca() {
    let sano = ventas();
    let p = 1024 + 128;
    let mut le: Vec<u8> = vec![0xFF, 0xFE];
    let mut be: Vec<u8> = vec![0xFE, 0xFF];
    for c in "Workbook".encode_utf16() {
        le.extend_from_slice(&c.to_le_bytes());
        be.extend_from_slice(&c.to_be_bytes());
    }
    let mut corto: Vec<u8> = vec![0xEF, 0xBB, 0xBF];
    corto.extend_from_slice(b"Workbook");
    for nombre in [le, be, corto] {
        let mut d = sano.clone();
        d[p..p + 64].fill(0);
        d[p..p + nombre.len()].copy_from_slice(&nombre);
        leido(&d);
    }
    // Otro nombre: no hay libro.
    let mut d = sano.clone();
    d[p] = b'w';
    erroneo(&d);
}

/// Un libro en sectores pequenos, de los que se dan los `m` primeros bytes, con `largo`
/// bytes y con `detras` al final.
fn pequeno(m: usize, largo: usize, detras: &[u8]) -> Vec<u8> {
    let flujo = flujo_con(&[], &celdas_ventas());
    assert!(m <= flujo.len() && flujo.len() <= 256);
    let mut d = cabecera(0, 1);
    d[60..64].copy_from_slice(&2u32.to_le_bytes());
    d[64] = 1;
    d.extend(tabla(&[MARCA_TABLA, FIN, FIN, FIN]));
    let mut dir = entrada("Root Entry", 5, 3, m as u32);
    dir.extend(entrada("Workbook", 2, 0, largo as u32));
    dir.resize(512, 0);
    d.extend(dir);
    d.extend(tabla(&[1, 2, 3, FIN]));
    let mut s = flujo[..m].to_vec();
    s.resize(512, 0x77);
    d.extend(s);
    d.extend_from_slice(detras);
    d
}

#[test]
fn sectores_pequenos() {
    let flujo = flujo_con(&[], &celdas_ventas());
    let n = flujo.len();
    assert!(n > 200 && n % 64 != 0);
    // El ultimo sector pequeno no esta entero.
    leido(&pequeno(n, n, &[]));
    leido(&pequeno(n, n + 5, &[]));
    leido(&pequeno(n, 0, &[]));
    // Lo que le falta se lee de donde se quedo la lectura.
    leido(&pequeno(n, 256, &[0; 100]));
    let mut resto = flujo[200..].to_vec();
    resto.resize(512, 0);
    leido(&pequeno(200, 256, &resto));
    // Si no queda nada, los registros se cortan.
    erroneo(&pequeno(200, 256, &[]));
    erroneo(&pequeno(100, 256, &[]));
    // Un sector pequeno que empieza mas alla de lo que hay.
    let mut d = pequeno(100, 256, &[]);
    d[1024 + 128 + 116] = 3;
    danado(&d);
    // Uno que no esta en su tabla.
    let mut d = pequeno(n, n, &[]);
    d[1024 + 128 + 116] = 200;
    danado(&d);
}

#[test]
fn libro_con_macros() {
    let mut d = ventas();
    let p = 1024 + 2 * 128;
    d[p..p + 128].copy_from_slice(&entrada("_VBA_PROJECT_CUR", 1, 0, 0));
    assert_eq!(estado_libro(&d), Estado::Macros);
    assert_eq!(pendiente(&d, Some("xls")), Some(Lector::Xls));
    assert_eq!(pendiente(&d, None), Some(Lector::Detectar));
}

fn cadena(s: &str) -> Vec<u8> {
    let mut r = (s.len() as u16).to_le_bytes().to_vec();
    r.push(0);
    r.extend_from_slice(s.as_bytes());
    r
}

fn compartida(fila: u16, columna: u16, i: u32) -> Vec<u8> {
    let mut d = celda(fila, columna);
    d.extend_from_slice(&i.to_le_bytes());
    registro(0x00FD, &d)
}

#[test]
fn textos_compartidos() {
    // El segundo texto sigue en otro registro, con letras de dos bytes.
    let mut sst = vec![2, 0, 0, 0, 2, 0, 0, 0];
    sst.extend(cadena("uno"));
    sst.extend_from_slice(&[4, 0, 0, b'd', b'o']);
    let sigue = registro(0x003C, &[1, b's', 0, b'!', 0]);
    let d = libro_con(
        &[registro(0x00FC, &sst), sigue],
        &[compartida(0, 0, 0), compartida(0, 1, 1)],
    );
    assert_eq!(estado_libro(&d), Estado::Sano);
    let h = hoja(&d, Some("xls")).unwrap_or_default();
    assert!(matches!(&h[0][0], Celda::Texto(s) if s == "uno"));
    assert!(matches!(&h[0][1], Celda::Texto(s) if s == "dos!"));
    // Tramos de formato que no caben en el registro.
    let mut sst = vec![1, 0, 0, 0, 1, 0, 0, 0];
    sst.extend_from_slice(&[1, 0, 8, 0]);
    danado(&libro_con(&[registro(0x00FC, &sst)], &[]));
    // Una continuacion vacia en medio de un texto.
    let mut sst = vec![1, 0, 0, 0, 1, 0, 0, 0];
    sst.extend_from_slice(&[4, 0, 0, b'd']);
    let d = libro_con(
        &[registro(0x00FC, &sst), registro(0x003C, &[]), registro(0x003C, &[0, b'o'])],
        &[],
    );
    danado(&d);
    // Un texto que se acaba antes de tiempo es un error que se ve.
    let d = libro_con(&[registro(0x00FC, &sst)], &[]);
    assert_eq!(estado_libro(&d), Estado::Sano);
    assert!(matches!(hoja(&d, Some("xls")), Err(ErrorHoja::Abrir(_))));
}

fn formula(fichas: &[u8]) -> Vec<u8> {
    let mut d = celda(0, 0);
    d.extend_from_slice(&5.0f64.to_le_bytes());
    d.extend_from_slice(&[0; 6]);
    d.extend_from_slice(&(fichas.len() as u16).to_le_bytes());
    d.extend_from_slice(fichas);
    registro(0x0006, &d)
}

#[test]
fn formulas() {
    // A1+2, SUMA de un rango, un texto y una ficha que no se conoce.
    for f in [
        &[0x44u8, 0, 0, 0, 0xC0, 0x1E, 2, 0, 0x03][..],
        &[0x25, 0, 0, 9, 0, 0, 0, 0, 0, 0x19, 0x10, 0, 0],
        &[0x17, 2, 0, b'o', b'k'],
        &[0x1E, 1, 0, 0xFF, 1, 2],
        &[0x41, 0xFF, 0xFF],
        &[],
    ] {
        let d = libro(&[formula(f)]);
        assert_eq!(estado_libro(&d), Estado::Sano);
        let h = hoja(&d, Some("xls")).unwrap_or_default();
        assert!(matches!(h[0][0], Celda::Real(m) if f64::from_bits(m.0) == 5.0));
    }
    // Fichas cortadas, una funcion que no hay y una fila que no tiene siguiente.
    for f in [
        &[0x44u8, 0, 0][..],
        &[0x17, 9, 0, b'o'],
        &[0x41, 0xE5, 0x01],
        &[0x42, 0, 0xE5, 0x01],
        &[0x44, 0xFF, 0xFF, 0, 0],
        &[0x43, 0, 0, 0, 0],
        &[0x19, 0x04, 9, 0],
    ] {
        danado(&libro(&[formula(f)]));
    }
}

#[test]
fn registros_danados() {
    danado(&libro_con(&[registro(0x0042, &[1])], &[]));
    danado(&libro_con(&[registro(0x0022, &[])], &[]));
    danado(&libro_con(&[registro(0x0085, &[0, 0])], &[]));
    danado(&libro_con(&[registro(0x0018, &[0; 10])], &[]));
    danado(&libro_con(&[registro(0x0017, &[2, 0, 1, 2, 3, 4, 5, 6, 7])], &[]));
    let mut formato = vec![164, 0, 0x2C, 0x01, 0];
    formato.extend_from_slice(&[b'['; 300]);
    danado(&libro_con(&[registro(0x041E, &formato)], &[]));
    danado(&libro(&[registro(0x00E5, &[1, 0, 0])]));
    danado(&libro(&[registro(0x0200, &[9, 0, 1, 0, 0, 0, 1, 0, 0, 0])]));
    danado(&libro(&[registro(0x00BD, &[0, 0, 5, 0, 0, 0, 0, 0, 0, 0, 1, 0])]));
    danado(&libro(&[registro(0x00BD, &[0, 0, 0, 0, 0, 0, 0, 0, 0, 0, 0xFF, 0xFF])]));
    // Celdas para las que no hay sitio.
    danado(&libro(&[numero(0, 0, 1.0), numero(65535, 300, 1.0)]));
    danado(&libro(&[registro(0x0200, &[0, 0, 0xFF, 0xFF, 0, 0, 0x01, 0x01, 0, 0])]));
    // Una hoja que empieza fuera del flujo.
    danado(&libro_con(&[registro(0x0085, &[0, 0, 1, 0, 0, 0, 1, 0, b'X'])], &[]));
    // Estos errores se ven al leer.
    for d in [
        libro_con(&[registro(0x002F, &[1, 0])], &[registro(0x00E5, &[])]),
        libro_con(&[registro(0x00E0, &[1])], &[]),
        libro_con(&[registro(0x0085, &[0, 0, 1, 0, 9, 0, 1, 0, b'X'])], &[]),
        libro(&[registro(0x0203, &[0; 5]), registro(0x00E5, &[])]),
        libro(&[registro(0x0200, &[0; 3])]),
    ] {
        assert_eq!(estado_libro(&d), Estado::Sano);
        assert!(matches!(hoja(&d, Some("xls")), Err(ErrorHoja::Abrir(m)) if m != "libro danado"));
    }
    // Y estos registros estan bien.
    let d = libro_con(
        &[
            registro(0x0042, &[0xB0, 4]),
            registro(0x0017, &[1, 0, 0, 0, 0, 0, 0, 0]),
            registro(0x0018, &[0, 0, 0, 1, 0, 0, 0, 0, 0, 0, 0, 0, 0, 0, 0, b'n']),
        ],
        &[
            registro(0x0200, &[0, 0, 2, 0, 0, 0, 3, 0, 0, 0]),
            registro(0x00BD, &[0, 0, 0, 0, 0, 0, 6, 0, 0, 0, 0, 0, 10, 0, 0, 0, 1, 0]),
            registro(0x00E5, &[1, 0, 0, 0, 1, 0, 0, 0, 1, 0]),
        ],
    );
    assert_eq!(estado_libro(&d), Estado::Sano);
    let h = hoja(&d, Some("xls")).unwrap_or_default();
    assert!(matches!((&h[0][0], &h[0][1]), (Celda::Entero(1), Celda::Entero(2))));
}

#[test]
fn columnas_de_mas() {
    let d = libro(&[
        registro(0x0200, &[0, 0, 10, 0, 0, 0, 0x2C, 0x01, 0, 0]),
        numero(0, 300, 1.5),
        registro(0x00BD, &[1, 0, 0x2D, 1, 0, 0, 6, 0, 0, 0, 0, 0, 10, 0, 0, 0, 0x2E, 1]),
    ]);
    assert_eq!(estado_libro(&d), Estado::Sano);
    let h = hoja(&d, Some("xls")).unwrap_or_default();
    assert_eq!(h.len(), 2);
    assert!(matches!(h[0][0], Celda::Real(m) if f64::from_bits(m.0) == 1.5));
    assert!(matches!((&h[1][1], &h[1][2]), (Celda::Entero(1), Celda::Entero(2))));
    // Un formato que no es de los que el libro define no se mira.
    let mut formato = vec![1, 0, 0x2C, 0x01, 0];
    formato.extend_from_slice(&[b'['; 300]);
    leido(&libro_con(&[registro(0x041E, &formato)], &celdas_ventas()));
}

#[test]
fn hoja_en_blanco() {
    let h = vec![vec![Celda::Vacia, Celda::Texto("  ".to_string())]];
    assert!(matches!(xls_to_csv(&h, &vec![]), Err(ErrorHoja::SinFilas)));
    let vacia: Vec<Vec<Celda>> = vec![];
    assert!(matches!(xls_to_csv(&vacia, &vec![]), Err(ErrorHoja::SinFilas)));
}

#[test]
fn filas_desiguales() {
    let h = vec![
        vec![Celda::Entero(1), Celda::Entero(2)],
        vec![Celda::Entero(3)],
    ];
    match xls_to_csv(&h, &vec![]) {
        Err(ErrorHoja::Escribir(e)) => assert_eq!(
            e,
            "CSV error: found record with 1 fields, but the previous record has 2 fields"
        ),
        _ => panic!("los registros no son parejos"),
    }
}

#[test]
fn textos_de_celdas() {
    let h = vec![vec![
        Celda::Entero(-5),
        Celda::Logico(false),
        Celda::Literal("45000".to_string()),
        Celda::Real(Monto(0)),
        Celda::Texto(" a ".to_string()),
        Celda::Vacia,
    ]];
    assert_eq!(
        registros_hoja(&h, &vec!["0".to_string()]),
        vec![vec!["-5", "false", "45000", "0", "a", ""]]
    );
}
