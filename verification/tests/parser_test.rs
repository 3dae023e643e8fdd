use g360_db_ventas::config::{default_allowed_lines, AppConfig};
use g360_db_ventas::fecha::Fecha;
use g360_db_ventas::models::{Monto, Venta};
use g360_db_ventas::parser::{
    abrir_export, base_precio, clasificar, clean_id, clean_str, derivar_campos, es_nc_nd,
    etiqueta_archivo, factura_buscada, filas_export, normalize_client_id,
    normalize_doc_id, numeral_columna, numeral_de, numerales_de_simple, parse_date,
    parse_export_csv, parse_export_csv_with_cross, parse_simple_csv, Montos, ParseOutput,
};
use g360_db_ventas::tabla::abrir_tabla;

fn monto(x: f64) -> Monto {
    Monto(x.to_bits())
}

fn montos(cantidad: f64, soles: f64) -> Montos {
    Montos {
        cantidad: monto(cantidad),
        cantidad_fae: monto(0.0),
        soles: monto(soles),
        dolares: monto(0.0),
        precio_unitario: monto(0.0),
    }
}

#[test]
fn texto_limpio() {
    assert_eq!(clean_str("  Ca\u{00F1}\u{00F3}n\u{00A0}A  B "), "Canon A B");
    assert_eq!(clean_str("\u{00C1}\u{00C9}\u{00CD}\u{00D3}\u{00DA}\u{00D1}"), "AEIOUN");
    assert_eq!(clean_str("a   b"), "a  b");
    assert_eq!(clean_str(""), "");
}

#[test]
fn codigo_limpio() {
    assert_eq!(clean_id(" 00123.0 "), "00123");
    assert_eq!(clean_id("\u{feff}05"), "05");
    assert_eq!(clean_id("NaN"), "");
    assert_eq!(clean_id("None"), "");
    assert_eq!(clean_id("null"), "");
    assert_eq!(clean_id("<NA>"), "");
    assert_eq!(clean_id("10"), "10");
    assert_eq!(clean_id("1.00"), "1.00");
    assert_eq!(clean_id("7.0.0"), "7");
    assert_eq!(clean_id(".0"), "");
    assert_eq!(clean_id("5 .0"), "5 ");
    assert_eq!(normalize_doc_id("204.0"), "204");
}

#[test]
fn codigo_de_cliente() {
    assert_eq!(normalize_client_id("68414"), "00068414");
    assert_eq!(normalize_client_id("123456789"), "00123456789");
    assert_eq!(normalize_client_id("20123456789"), "20123456789");
    assert_eq!(normalize_client_id(""), "");
    assert_eq!(normalize_client_id("nan"), "");
}

#[test]
fn numeros_de_celda() {
    assert_eq!(numeral_de("1,234.5", true), "1234.5");
    assert_eq!(numeral_de("1.000", true), "1.000");
    assert_eq!(numeral_de("1.000,50", false), "1000.50");
    assert_eq!(numeral_de("1,234", false), "1234");
    assert_eq!(numeral_de("12,5", false), "12.5");
    assert_eq!(numeral_de("1.000", false), "1000");
    assert_eq!(numeral_de("25.056", false), "25.056");
    assert_eq!(numeral_de(" 7 ", false), "7");
    assert_eq!(numeral_de("", false), "");
    assert_eq!(numeral_columna("1.000", "cantidad"), "1.000");
    assert_eq!(numeral_columna("1.000", "SOLES"), "1000");
    assert_eq!(numeral_columna("1.000", "Total unidades"), "1.000");
    assert_eq!(numeral_columna("1.000", " Cantidad FAE "), "1.000");
    assert_eq!(numeral_columna("1.000", "precio unitario"), "1000");
    assert_eq!(numeral_columna("1.000", "PRECIO UNITARIO"), "1000");
    assert_eq!(numeral_columna("25.056", "PRECIO UNITARIO"), "25.056");
}

#[test]
fn base_del_precio() {
    assert_eq!(base_precio(monto(2.0), monto(5.0)), Some(monto(2.0)));
    assert_eq!(base_precio(monto(0.0), monto(5.0)), Some(monto(5.0)));
    assert_eq!(base_precio(monto(-0.0), monto(5.0)), Some(monto(5.0)));
    assert_eq!(base_precio(monto(0.0), monto(0.0)), None);
    assert!(monto(-1.0).es_negativo());
    assert!(!monto(-0.0).es_negativo());
    assert!(!monto(f64::NAN).es_negativo());
    assert!(!monto(-f64::NAN).es_negativo());
    assert!(monto(f64::NEG_INFINITY).es_negativo());
}

#[test]
fn campos_derivados() {
    let mut v = Venta::nuevo("a.csv", "2024-01");
    assert_eq!(v.moneda, "Soles");
    assert_eq!(v.fecha_orig, Fecha { anho: 1970, mes: 1, dia: 1 });
    v.tpo_doc = "NCR".to_string();
    v.serie_doc = "215".to_string();
    v.nro_doc = "29154".to_string();
    v.referencia = "F01/204-50867".to_string();
    v.cantidad = monto(-3.0);
    derivar_campos(&mut v);
    assert_eq!(v.tipo_operacion, "devolucion");
    assert_eq!(v.factura_ref_serie, "204");
    assert_eq!(v.factura_ref_nro, "50867");
    assert_eq!(v.folio_unico, "NCR/215/29154");
    v.cantidad = monto(0.0);
    derivar_campos(&mut v);
    assert_eq!(v.tipo_operacion, "ajuste_valor");
    v.tpo_doc = "NDB".to_string();
    derivar_campos(&mut v);
    assert_eq!(v.tipo_operacion, "nota_debito");
    v.tpo_doc = "F01".to_string();
    v.referencia = "sin guion".to_string();
    derivar_campos(&mut v);
    assert_eq!(v.tipo_operacion, "venta");
    assert_eq!(v.factura_ref_serie, "204");
}

#[test]
fn fechas_de_celda() {
    assert_eq!(parse_date("19/01/2024"), Fecha { anho: 2024, mes: 1, dia: 19 });
    assert_eq!(parse_date(" 19-01-2024 "), Fecha { anho: 2024, mes: 1, dia: 19 });
    assert_eq!(parse_date("2024-01-19"), Fecha { anho: 1970, mes: 1, dia: 1 });
    assert_eq!(parse_date("30/02/2024"), Fecha { anho: 1970, mes: 1, dia: 1 });
    assert_eq!(parse_date(""), Fecha { anho: 1970, mes: 1, dia: 1 });
}

#[test]
fn notas_de_credito_y_debito() {
    assert!(es_nc_nd("01ncr"));
    assert!(es_nc_nd("NDB"));
    assert!(!es_nc_nd("F01"));
}

#[test]
fn etiqueta_del_archivo() {
    assert_eq!(etiqueta_archivo(Some("ventas_2024-01")), "2024-01");
    assert_eq!(etiqueta_archivo(None), "unknown");
}

const EXPORT: &str = "\
Anho,ID_CLIENTE,NOM_CLIENTE,ID_LINEA,ID_ARTICULO,NOM_ARTICULO,TPO_DOC,SERIE_DOC,NRO_DOC,FECHA_ORIG,REFERENCIA,MONEDA,CANTIDAD,SOLES
2024,68414,Primavera,0102,02211.0,\"FORRO, A4\",f01,204.0,44115,16/01/2024,,,\"1,000\",\"3.574,80\"
2024,68414,Primavera,0150,777,Otro,F01,300,1,16/01/2024,,Dolares,1,5
2024,68414,Primavera,0150,777,Otro,NCR,215,1,17/01/2024,F01/204-44115,,-1,-5
2024,68414,Primavera,0150,778,Otro,NCR,215,2,17/01/2024,F01/300-1,,-1,-5
2024,68414,Primavera,0150,779,Otro,NCR,215,3,17/01/2024,F01/999-9,,-1,-5
2024,68414,Primavera,0150,780,Otro,NCR,215,4,17/01/2024,,,-1,-5
2024,,Nadie,0102,02212,X,F01,204,44116,16/01/2024,,,1,1
";

fn filas_de_prueba() -> Vec<Venta> {
    let e = abrir_export(EXPORT.as_bytes()).unwrap();
    assert_eq!(e.numerales.len(), 7);
    assert_eq!(e.numerales[0].cantidad, "1000");
    assert_eq!(e.numerales[0].soles, "3574.80");
    assert_eq!(e.numerales[0].dolares, "");
    let ms: Vec<Montos> = e.numerales.iter().map(|n| montos(
        n.cantidad.parse::<f64>().unwrap_or(0.0),
        n.soles.parse::<f64>().unwrap_or(0.0),
    )).collect();
    filas_export(&e, &ms, "2024-01", "ventas_2024-01.csv")
}

#[test]
fn filas_de_una_exportacion() {
    let filas = filas_de_prueba();
    assert_eq!(filas.len(), 6);
    let v = &filas[0];
    assert_eq!(v.id_articulo, "02211");
    assert_eq!(v.original_sku, "02211.0");
    assert_eq!(v.nom_articulo, "FORRO, A4");
    assert_eq!(v.id_cliente, "00068414");
    assert_eq!(v.tpo_doc, "F01");
    assert_eq!(v.serie_doc, "204");
    assert_eq!(v.moneda, "Soles");
    assert_eq!(v.anho, 2024);
    assert_eq!(v.mes, 1);
    assert_eq!(v.fecha_orig, Fecha { anho: 2024, mes: 1, dia: 16 });
    assert_eq!(v.fecha_ref, None);
    assert_eq!(v.cantidad, monto(1000.0));
    assert_eq!(v.soles, monto(3574.8));
    assert_eq!(v.folio_unico, "F01/204/44115");
    assert_eq!(v.mes_ref, "2024-01");
    assert_eq!(v.file_source, "ventas_2024-01.csv");
    assert_eq!(filas[1].moneda, "Dolares");
    assert_eq!(filas[2].tipo_operacion, "devolucion");
}

#[test]
fn reparto_de_las_filas() {
    let lineas = default_allowed_lines();
    let out = clasificar(filas_de_prueba(), &lineas);
    let folios: Vec<&str> = out.ventas.iter().map(|v| v.folio_unico.as_str()).collect();
    assert_eq!(folios, vec!["F01/204/44115", "NCR/215/1"]);
    assert_eq!(out.nc_nd_pendientes.len(), 1);
    assert_eq!(out.nc_nd_pendientes[0].folio_unico, "NCR/215/3");
    assert_eq!(
        factura_buscada(&out.nc_nd_pendientes[0]),
        Some(("999".to_string(), "9".to_string()))
    );
    let solo = parse_export_csv(filas_de_prueba(), &lineas);
    assert_eq!(solo.len(), 2);
}

#[test]
fn ampliar_las_lineas_no_pierde_filas() {
    let mut lineas = default_allowed_lines();
    let antes = parse_export_csv(filas_de_prueba(), &lineas).len();
    lineas.push("50".to_string());
    let despues = parse_export_csv(filas_de_prueba(), &lineas);
    assert!(despues.len() > antes);
    assert_eq!(despues.len(), 6);
}

#[test]
fn notas_de_otro_mes() {
    let lineas = default_allowed_lines();
    let out = clasificar(filas_de_prueba(), &lineas);
    let v = parse_export_csv_with_cross(out, &vec![vec!["0150".to_string(), "0102".to_string()]], &lineas);
    assert_eq!(v.len(), 3);
    assert_eq!(v[2].folio_unico, "NCR/215/3");
    let out = clasificar(filas_de_prueba(), &lineas);
    let v = parse_export_csv_with_cross(out, &vec![vec!["0150".to_string()]], &lineas);
    assert_eq!(v.len(), 2);
    let out = clasificar(filas_de_prueba(), &lineas);
    let v = parse_export_csv_with_cross(out, &vec![vec![]], &lineas);
    assert_eq!(v.len(), 2);
    let vacio = ParseOutput { ventas: vec![], nc_nd_pendientes: vec![] };
    assert!(parse_export_csv_with_cross(vacio, &vec![], &lineas).is_empty());
}

#[test]
fn columna_total_si_no_hay_soles() {
    let e = abrir_export(b"ID_CLIENTE,TOTAL\n1,\"2,50\"\n").unwrap();
    assert_eq!(e.numerales[0].soles, "2.50");
}

#[test]
fn exportacion_ilegible() {
    let r = abrir_export(b"A,B\n1,2\n3\n");
    assert!(r.is_err());
    assert!(r.err().unwrap().contains("found record with 1 fields"));
    assert!(abrir_export(b"A\n\xff\n").is_err());
}

#[test]
fn lineas_de_un_caracter() {
    let mut v = Venta::nuevo("a", "2024-01");
    v.id_linea = "\u{20ac}".to_string();
    let out = clasificar(vec![v], &default_allowed_lines());
    assert!(out.ventas.is_empty());
    assert!(out.nc_nd_pendientes.is_empty());
}

#[test]
fn formato_simple() {
    let csv = "NRO_DOCUMENTO,NOM_CLIENTE,COD_SUCURSAL,NOM_SUCURSAL,CANTIDAD,SOLES,DOLARES\n\
               123,Ana,01,Lima,\"1,5\",\"1.000,5\",2\n\
               NRO_DOCUMENTO,,,,,,\n\
               ,x,,,,,\n\
               nan,y,,,,,\n";
    let t = abrir_tabla(csv.as_bytes()).unwrap();
    let ns = numerales_de_simple(&t);
    assert_eq!(ns.len(), 4);
    assert_eq!(ns[0].cantidad, "15");
    assert_eq!(ns[0].soles, "1000.5");
    assert_eq!(ns[0].cantidad_fae, "");
    let ms: Vec<Montos> = ns.iter().map(|n| montos(
        n.cantidad.parse::<f64>().unwrap_or(0.0),
        n.soles.parse::<f64>().unwrap_or(0.0),
    )).collect();
    let v = parse_simple_csv(&t, &ms, "2024-03", "x.csv");
    assert_eq!(v.len(), 1);
    assert_eq!(v[0].id_cliente, "00000123");
    assert_eq!(v[0].nro_doc, "123");
    assert_eq!(v[0].nom_cliente, "Ana");
    assert_eq!((v[0].anho, v[0].mes), (2024, 3));
    assert_eq!(v[0].soles, monto(1000.5));
    assert_eq!(v[0].folio_unico, "//123");
    assert_eq!(v[0].tipo_operacion, "venta");
}

#[test]
fn lineas_de_fabrica_en_los_ajustes() {
    assert_eq!(AppConfig::default_app().allowed_lines, default_allowed_lines());
}
