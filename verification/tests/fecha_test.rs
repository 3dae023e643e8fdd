use g360_db_ventas::fecha::{
    anterior, dias_entre, fecha_iso, fmt_hora_local, gen_month_range, generate_day_range,
    generate_month_ranges, instante, mes_iso, min_available_date, split_month_n, sumar_dias, Fecha,
    MonthRange,
};

fn f(anho: i32, mes: u32, dia: u32) -> Fecha {
    Fecha { anho, mes, dia }
}

#[test]
fn hora_local_de_peru() {
    assert_eq!(fmt_hora_local(0), "31/12/1969 19:00:00");
    assert_eq!(fmt_hora_local(17_999), "31/12/1969 23:59:59");
    assert_eq!(fmt_hora_local(18_000), "01/01/1970 00:00:00");
    assert_eq!(fmt_hora_local(1_709_182_800), "29/02/2024 00:00:00");
    assert_eq!(fmt_hora_local(1_735_689_599), "31/12/2024 18:59:59");
    assert_eq!(fmt_hora_local(951_782_400 + 18_000), "29/02/2000 00:00:00");
}

#[test]
fn instantes_de_fin_de_siglo() {
    let i = instante(4_107_542_399);
    assert_eq!((i.anho, i.mes, i.dia), (2100, 2, 28));
    assert_eq!((i.hora, i.minuto, i.segundo), (23, 59, 59));
    let i = instante(4_107_542_400);
    assert_eq!((i.anho, i.mes, i.dia), (2100, 3, 1));
}

#[test]
fn suma_de_dias() {
    assert_eq!(sumar_dias(f(2024, 2, 28), 1), Some(f(2024, 2, 29)));
    assert_eq!(sumar_dias(f(2023, 2, 28), 1), Some(f(2023, 3, 1)));
    assert_eq!(sumar_dias(f(2024, 1, 1), -1), Some(f(2023, 12, 31)));
    assert_eq!(sumar_dias(f(262_142, 12, 31), 1), None);
    assert_eq!(sumar_dias(f(2024, 1, 1), i64::MAX), None);
}

#[test]
fn orden_de_fechas() {
    assert!(anterior(f(2023, 12, 31), f(2024, 1, 1)));
    assert!(!anterior(f(2024, 1, 1), f(2024, 1, 1)));
    assert!(anterior(f(2024, 1, 31), f(2024, 2, 1)));
    assert_eq!(min_available_date(), f(2020, 1, 1));
}

#[test]
fn textos_de_fecha() {
    assert_eq!(fecha_iso(f(2024, 3, 7)), "2024-03-07");
    assert_eq!(mes_iso(f(2024, 3, 7)), "2024-03");
    assert_eq!(fecha_iso(f(7, 1, 1)), "0007-01-01");
    assert_eq!(fecha_iso(f(12_345, 1, 1)), "+12345-01-01");
    assert_eq!(fecha_iso(f(-5, 1, 1)), "-0005-01-01");
}

#[test]
fn rango_de_un_dia() {
    let r = generate_day_range(f(2024, 1, 19));
    assert_eq!(r.label, "2024-01-19");
    let (a, b) = r.to_url_params();
    assert_eq!(a, "19/01/2024");
    assert_eq!(b, "19/01/2024");
}

#[test]
fn meses_hacia_atras() {
    let v = generate_month_ranges(3, f(2024, 2, 10));
    let labels: Vec<&str> = v.iter().map(|r| r.label.as_str()).collect();
    assert_eq!(labels, vec!["2024-01", "2023-12", "2023-11"]);
    assert_eq!(v[0].start, f(2024, 1, 1));
    assert_eq!(v[0].end, f(2024, 1, 31));
    let v = generate_month_ranges(3, f(2020, 3, 15));
    let labels: Vec<&str> = v.iter().map(|r| r.label.as_str()).collect();
    assert_eq!(labels, vec!["2020-02", "2020-01"]);
    assert_eq!((v[0].start, v[0].end), (f(2020, 2, 1), f(2020, 2, 29)));
    assert_eq!((v[1].start, v[1].end), (f(2020, 1, 1), f(2020, 1, 31)));
    assert!(generate_month_ranges(1, f(2020, 1, 15)).is_empty());
    assert!(generate_month_ranges(0, f(2024, 2, 10)).is_empty());
}

#[test]
fn trozos_casi_iguales() {
    let m = gen_month_range(2024, 1, 2024, 1, f(2024, 1, 31)).remove(0);
    for partes in [2usize, 4, 6, 10] {
        let dias: Vec<u32> =
            split_month_n(&m, partes).iter().map(|r| r.end.dia - r.start.dia + 1).collect();
        let q = 31 / partes as u32;
        assert_eq!(dias.iter().sum::<u32>(), 31);
        assert!(dias.iter().all(|d| *d == q || *d == q + 1));
    }
}

#[test]
fn meses_de_un_rango() {
    let v = gen_month_range(2023, 11, 2024, 2, f(2024, 2, 10));
    let labels: Vec<&str> = v.iter().map(|r| r.label.as_str()).collect();
    assert_eq!(labels, vec!["2023-11", "2023-12", "2024-01", "2024-02"]);
    assert_eq!(v[0].end, f(2023, 11, 30));
    assert_eq!(v[3].start, f(2024, 2, 1));
    assert_eq!(v[3].end, f(2024, 2, 10));
    for k in 1..v.len() {
        assert_eq!(sumar_dias(v[k - 1].end, 1), Some(v[k].start));
    }
    let v = gen_month_range(2024, 10, 2024, 3, f(2024, 3, 1));
    assert_eq!(v.len(), 3);
    assert_eq!(v[2].label, "2024-12");
}

#[test]
fn division_de_un_mes() {
    let m = MonthRange { start: f(2024, 1, 1), end: f(2024, 1, 31), label: "2024-01".to_string() };
    let v = split_month_n(&m, 4);
    assert_eq!(v.len(), 4);
    assert_eq!(v[0].label, "2024-01-p4_1");
    assert_eq!(v[0].start, f(2024, 1, 1));
    assert_eq!(v[0].end, f(2024, 1, 8));
    assert_eq!(v[3].end, f(2024, 1, 31));
    for k in 1..v.len() {
        assert_eq!(sumar_dias(v[k - 1].end, 1), Some(v[k].start));
    }
    let corto = MonthRange { start: f(2024, 1, 1), end: f(2024, 1, 3), label: "x".to_string() };
    assert_eq!(split_month_n(&corto, 10).len(), 3);
    assert!(split_month_n(&corto, 0).is_empty());
    let vacio = MonthRange { start: f(2024, 1, 3), end: f(2024, 1, 1), label: "x".to_string() };
    assert!(split_month_n(&vacio, 4).is_empty());
}

#[test]
fn dias_sueltos() {
    let v = dias_entre(f(2024, 2, 28), f(2024, 3, 1));
    let labels: Vec<&str> = v.iter().map(|r| r.label.as_str()).collect();
    assert_eq!(labels, vec!["2024-02-28", "2024-02-29", "2024-03-01"]);
    assert!(dias_entre(f(2024, 3, 1), f(2024, 2, 1)).is_empty());
}

#[test]
fn cargas_semanales_y_mensuales() {
    let semana = gen_month_range(2021, 1, 2021, 1, f(2021, 1, 7));
    assert_eq!(semana.len(), 1);
    assert_eq!(semana[0].end, f(2021, 1, 7));
    let anho = gen_month_range(2021, 1, 2021, 12, f(2021, 12, 31));
    assert_eq!(anho.len(), 12);
    assert_eq!((anho[0].label.as_str(), anho[11].label.as_str()), ("2021-01", "2021-12"));
    let cruce = gen_month_range(2021, 1, 2021, 2, f(2021, 2, 4));
    assert_eq!(cruce.len(), 2);
    assert_eq!((cruce[1].start, cruce[1].end), (f(2021, 2, 1), f(2021, 2, 4)));
}
