use g360_db_ventas::captura::merge_csvs;

#[test]
fn test_merge_csvs_puro() {
    let a = "H1,H2\n1,2\n3,4\n".to_string();
    let b = "H1,H2\n5,6\n".to_string();
    let (content, n) = merge_csvs(&vec![a, b]);
    assert_eq!(n, 3, "esperado 3 filas data (header solo una vez, sin contar header)");
    assert_eq!(content.lines().count(), 4);
    assert_eq!(content.lines().next().unwrap(), "H1,H2");
}

use g360_db_ventas::captura::{
    es_mayor_que, estimados_diario, estimados_rango, leer_rango, leer_ultimo, meses_pendientes,
    plan_diario, plan_rango, planear, Plan, Union,
};
use g360_db_ventas::fecha::{gen_month_range, Fecha};

fn f(anho: i32, mes: u32, dia: u32) -> Fecha {
    Fecha { anho, mes, dia }
}

#[test]
fn union_con_lineas_en_blanco() {
    let partes = vec!["H\r\n1\r\n\r\n2".to_string(), "\n3\n".to_string(), "".to_string(), "H\n \n4\n".to_string()];
    let (s, n) = merge_csvs(&partes);
    assert_eq!(s, "H\n1\n2\n3\n4\n");
    assert_eq!(n, 4);
    assert_eq!(merge_csvs(&vec![]), (String::new(), 0));
}

#[test]
fn union_con_cabecera_tardia() {
    let (s, n) = merge_csvs(&vec!["\n1\n".to_string(), "H\n2\n".to_string()]);
    assert_eq!(s, "1\nH\n2\n");
    assert_eq!(n, 2);
}

#[test]
fn union_por_partes() {
    let mut u = Union::nueva();
    u.agregar("H\n1\n");
    assert_eq!(u.terminar(), ("H\n1\n".to_string(), 1));
    u.agregar("H\n2\n");
    assert_eq!(u.terminar(), ("H\n1\n2\n".to_string(), 2));
}

#[test]
fn rango_que_se_pide() {
    let hoy = f(2024, 5, 10);
    assert_eq!(leer_rango("", "", hoy), Some((f(2021, 1, 1), hoy)));
    assert_eq!(leer_rango("2023-02-03", "--", hoy), Some((f(2023, 2, 3), hoy)));
    assert_eq!(leer_rango("no", "2022-01-01", hoy), Some((f(2021, 1, 1), f(2022, 1, 1))));
    assert_eq!(leer_rango("2024-06-01", "", hoy), None);
}

#[test]
fn ultimo_dia_capturado() {
    assert_eq!(leer_ultimo(None), f(2021, 1, 1));
    assert_eq!(leer_ultimo(Some("2024-02-29")), f(2024, 2, 29));
    assert_eq!(leer_ultimo(Some("29/02/2024")), f(2021, 1, 1));
}

#[test]
fn plan_de_pocos_dias() {
    match plan_diario(Some("2024-05-08"), f(2024, 5, 10)) {
        Plan::Dias(v) => {
            let labels: Vec<&str> = v.iter().map(|r| r.label.as_str()).collect();
            assert_eq!(labels, vec!["2024-05-07", "2024-05-08", "2024-05-09", "2024-05-10"]);
        }
        _ => panic!("se esperaban dias"),
    }
    match plan_diario(Some("2024-06-20"), f(2024, 5, 10)) {
        Plan::Dias(v) => assert!(v.is_empty()),
        _ => panic!("se esperaban dias"),
    }
}

#[test]
fn plan_de_muchos_dias() {
    match plan_diario(Some("2024-04-20"), f(2024, 5, 10)) {
        Plan::Meses(v) => {
            assert_eq!(v.len(), 2);
            assert_eq!(v[0].start, f(2024, 4, 1));
            assert_eq!(v[1].end, f(2024, 5, 10));
        }
        _ => panic!("se esperaban meses"),
    }
    match plan_diario(None, f(2021, 3, 1)) {
        Plan::Meses(v) => assert_eq!(v.len(), 3),
        _ => panic!("se esperaban meses"),
    }
    match plan_diario(Some("2024-05-03"), f(2024, 5, 10)) {
        Plan::Meses(v) => assert_eq!(v.len(), 1),
        _ => panic!("ocho dias se piden por meses"),
    }
    match plan_diario(Some("2024-05-04"), f(2024, 5, 10)) {
        Plan::Dias(v) => assert_eq!(v.len(), 8),
        _ => panic!("siete dias se piden sueltos"),
    }
}

#[test]
fn plan_de_un_rango() {
    match plan_rango("2024-01-15", "2024-02-10", f(2024, 5, 10)) {
        Plan::Meses(v) => {
            assert_eq!(v.len(), 2);
            assert_eq!(v[0].start, f(2024, 1, 1));
            assert_eq!(v[1].end, f(2024, 2, 10));
        }
        _ => panic!("se esperaban meses"),
    }
    assert!(matches!(plan_rango("2024-03-01", "2024-02-10", f(2024, 5, 10)), Plan::Invalido));
    assert!(matches!(planear("2024-03-01", "2024-02-10", f(2024, 5, 10)), Some(Plan::Invalido)));
    assert!(matches!(planear("2024-01-15", "", f(2024, 5, 10)), Some(Plan::Meses(v)) if v.len() == 5));
    assert!(planear("", "+262142-12-01", f(2024, 5, 10)).is_none());
}

#[test]
fn meses_que_faltan() {
    let hoy = f(2024, 3, 10);
    let v = gen_month_range(2024, 1, 2024, 3, hoy);
    let r = meses_pendientes(v, hoy, &vec![Some(5000), Some(1000), Some(9000)]);
    let labels: Vec<&str> = r.iter().map(|x| x.label.as_str()).collect();
    assert_eq!(labels, vec!["2024-02", "2024-03"]);
    let v = gen_month_range(2024, 1, 2024, 3, hoy);
    let r = meses_pendientes(v, hoy, &vec![None, Some(1001), None]);
    assert_eq!(r.len(), 2);
}

#[test]
fn estimaciones() {
    assert_eq!(estimados_diario(Some("2024-05-08"), f(2024, 5, 10)), 3);
    assert_eq!(estimados_diario(Some("2024-05-18"), f(2024, 5, 10)), 1);
    assert_eq!(estimados_rango(f(2024, 1, 1), f(2024, 3, 1)), 2);
    assert_eq!(estimados_rango(f(2024, 1, 1), f(2024, 1, 1)), 1);
    assert!(es_mayor_que(Some(1001), 1000));
    assert!(!es_mayor_que(Some(1000), 1000));
    assert!(!es_mayor_que(None, 0));
}
