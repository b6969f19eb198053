use quickshift::excel::{
    candidatas_hojas, column_letters_to_index, encabezados_de_celdas, encabezados_de_textos,
    entero_de_celda, filas_como_textos, hojas_de_lectura, horario_desde_texto, indices_encabezado,
    logico_de_celda, malla_desde_filas, planes_desde_celdas, planes_desde_textos, ramo_de_fila,
    secciones_desde_celdas, secciones_desde_textos, texto_de_celda, Celda, ErrorOferta, Intento,
};

fn t(s: &str) -> Celda {
    Celda::Texto(s.to_string())
}

fn textos(celdas: &[&str]) -> Vec<String> {
    celdas.iter().map(|s| s.to_string()).collect()
}

fn decimal(x: f64) -> Celda {
    Celda::Decimal { texto: x.to_string(), truncado: x as i32, no_nulo: x != 0.0 }
}

fn es_razon(i: &Intento, a: &str, n: &str) -> bool {
    matches!(i, Intento::Razon { aprobados, total } if aprobados == a && total == n)
}

fn es_porcentaje(i: &Intento, p: &str) -> bool {
    matches!(i, Intento::Porcentaje(x) if x == p)
}

#[test]
fn indices_de_columna() {
    assert_eq!(column_letters_to_index("A"), 1);
    assert_eq!(column_letters_to_index("Z"), 26);
    assert_eq!(column_letters_to_index("AA"), 27);
    assert_eq!(column_letters_to_index("AB"), 28);
    assert_eq!(column_letters_to_index("ZZ"), 702);
    assert_eq!(column_letters_to_index("ab"), 28);
    assert_eq!(column_letters_to_index("B12"), 2);
    assert_eq!(column_letters_to_index(""), 0);
}

#[test]
fn lectura_de_celdas() {
    let f = vec![
        Celda::Entero(-5),
        decimal(3.75),
        t("12"),
        t("abc"),
        Celda::Logico(true),
        Celda::Vacia,
        Celda::Error,
        Celda::Entero(5_000_000_000),
        t("TRUE"),
        Celda::FechaHoraIso("2024-03-01T10:00:00".to_string()),
    ];
    assert_eq!(texto_de_celda(&f, 0, "x"), "-5");
    assert_eq!(texto_de_celda(&f, 1, "x"), "3.75");
    assert_eq!(texto_de_celda(&f, 4, "x"), "true");
    assert_eq!(texto_de_celda(&f, 5, "x"), "x");
    assert_eq!(texto_de_celda(&f, 6, "x"), "x");
    assert_eq!(texto_de_celda(&f, 9, "x"), "2024-03-01T10:00:00");
    assert_eq!(texto_de_celda(&f, 40, "falta"), "falta");
    assert_eq!(entero_de_celda(&f, 0), -5);
    assert_eq!(entero_de_celda(&f, 1), 3);
    assert_eq!(entero_de_celda(&f, 2), 12);
    assert_eq!(entero_de_celda(&f, 3), 0);
    assert_eq!(entero_de_celda(&f, 4), 1);
    assert_eq!(entero_de_celda(&f, 7), 5_000_000_000i64 as i32);
    assert_eq!(entero_de_celda(&f, 40), 0);
    assert!(logico_de_celda(&f, 8));
    assert!(logico_de_celda(&f, 0));
    assert!(logico_de_celda(&f, 1));
    assert!(!logico_de_celda(&f, 3));
    assert!(!logico_de_celda(&f, 5));
    assert!(!logico_de_celda(&vec![Celda::Entero(0)], 0));
    assert!(!logico_de_celda(&vec![decimal(0.0)], 0));
}

#[test]
fn malla_desde_celdas() {
    let filas = vec![
        vec![t("Codigo"), t("Nombre"), t("Correlativo"), t("Holgura"), t("Critico")],
        vec![t("CIT3313"), t("Algoritmos"), Celda::Entero(7), decimal(2.0), t("True")],
        vec![Celda::Vacia, t("Sin codigo"), Celda::Entero(1), Celda::Entero(0), t("false")],
        vec![t("MAT101"), t("Calculo"), t("3"), Celda::Vacia, Celda::Logico(false)],
        vec![t("CIT3313"), t("Algoritmos II"), Celda::Entero(8), Celda::Entero(0), Celda::Entero(1)],
    ];
    let m = malla_desde_filas(&filas);
    assert_eq!(m.len(), 2);
    let a = m.get("CIT3313").unwrap();
    assert_eq!(a.nombre, "Algoritmos II");
    assert_eq!(a.numb_correlativo, 8);
    assert_eq!(a.holgura, 0);
    assert!(a.critico);
    assert_eq!(a.codigo_ref.as_deref(), Some("CIT3313"));
    assert!(a.dificultad.is_none());
    let b = m.get("MAT101").unwrap();
    assert_eq!(b.numb_correlativo, 3);
    assert_eq!(b.holgura, 0);
    assert!(!b.critico);
    for i in 0..m.len() {
        assert_eq!(&m.ramo(i).codigo, m.clave(i));
        assert_eq!(m.ramo(i).codigo_ref.as_ref(), Some(m.clave(i)));
    }
    assert!(malla_desde_filas(&vec![]).len() == 0);
    assert!(ramo_de_fila(&vec![Celda::Vacia, t("x")]).is_none());
    let (codigo, ramo) = ramo_de_fila(&vec![Celda::Entero(42)]).unwrap();
    assert_eq!(codigo, "42");
    assert_eq!(ramo.nombre, "");
}

#[test]
fn horarios() {
    assert_eq!(horario_desde_texto(""), vec!["Sin horario"]);
    assert_eq!(horario_desde_texto(" LU 08:30 , MI 10:00; ;JU 12:00 "), vec!["LU 08:30", "MI 10:00", "JU 12:00"]);
    assert!(horario_desde_texto(" ; , ").is_empty());
}

#[test]
fn oferta_desde_celdas() {
    assert_eq!(secciones_desde_celdas(&vec![]).unwrap_err(), ErrorOferta::Vacia);
    let encabezado = vec![t("Codigo"), t("Nombre"), t("Seccion"), t("Horario"), t("Profesor"), t("Box")];
    assert_eq!(secciones_desde_celdas(&vec![encabezado.clone()]).unwrap_err(), ErrorOferta::PocasFilas);
    let filas = vec![
        encabezado,
        vec![t("CIT3313-01"), t("Algoritmos"), Celda::Entero(1), t("LU 08:30;MI 10:00"), t("Ana"), Celda::Vacia],
        vec![],
        vec![Celda::Vacia, t("Nada")],
        vec![t("CIT3413-2"), Celda::Vacia, Celda::Vacia, Celda::Vacia, Celda::Error, Celda::Error],
        vec![t("MAT101")],
        vec![t("FIS110-1"), t("Fisica"), t("2"), t("VI 14:00"), t("Luis"), t("FIS110")],
    ];
    let l = secciones_desde_celdas(&filas).unwrap();
    assert_eq!(l.len(), 4);
    assert_eq!(l[0].codigo, "CIT3313-01");
    assert_eq!(l[0].seccion, "1");
    assert_eq!(l[0].horario, vec!["LU 08:30", "MI 10:00"]);
    assert_eq!(l[0].codigo_box, "CIT3313");
    assert_eq!(l[1].nombre, "Sin nombre");
    assert_eq!(l[1].seccion, "1");
    assert_eq!(l[1].horario, vec!["Sin horario"]);
    assert_eq!(l[1].profesor, "Sin asignar");
    assert_eq!(l[1].codigo_box, "CIT3413-2");
    assert_eq!(l[2].nombre, "Sin nombre");
    assert_eq!(l[2].codigo_box, "MAT101");
    assert_eq!(l[3].codigo_box, "FIS110");
    assert_eq!(l[3].profesor, "Luis");
}

#[test]
fn oferta_desde_textos() {
    assert_eq!(secciones_desde_textos(&vec![]).unwrap_err(), ErrorOferta::PocasFilas);
    assert_eq!(secciones_desde_textos(&vec![textos(&["Codigo"])]).unwrap_err(), ErrorOferta::PocasFilas);
    let filas = vec![
        textos(&["Codigo", "Nombre", "Seccion", "Horario", "Profesor", "Box"]),
        textos(&["CIT3313-01", "", "3", "LU 08:30", "Ana"]),
        textos(&["  ", " ", ""]),
        textos(&[" ", "Nombre sin codigo"]),
        textos(&["MAT101", "Calculo", "1", "", "Eva", ""]),
        textos(&["FIS110"]),
    ];
    let l = secciones_desde_textos(&filas).unwrap();
    assert_eq!(l.len(), 3);
    assert_eq!(l[0].nombre, "");
    assert_eq!(l[0].seccion, "3");
    assert_eq!(l[0].codigo_box, "CIT3313");
    assert_eq!(l[1].horario, vec!["Sin horario"]);
    assert_eq!(l[1].codigo_box, "");
    assert_eq!(l[2].nombre, "Sin nombre");
    assert_eq!(l[2].seccion, "1");
    assert_eq!(l[2].profesor, "Sin asignar");
    assert_eq!(l[2].codigo_box, "FIS110");
}

#[test]
fn hojas_candidatas() {
    let c = candidatas_hojas(&textos(&["Hoja1", "MiMalla", "Otra", "Hoja1"]));
    assert_eq!(c, vec!["Mi Malla", "MiMalla", "Mi malla", "Hoja1", "Otra"]);
    assert_eq!(hojas_de_lectura("Oferta"), vec!["Oferta", "Mi Malla", "MiMalla"]);
}

#[test]
fn celdas_como_textos() {
    let filas = vec![vec![Celda::Entero(-5), Celda::Logico(true), Celda::Vacia, Celda::Error, t(" a ")], vec![]];
    let r = filas_como_textos(&filas);
    assert_eq!(r, vec![textos(&["-5", "true", "", "", " a "]), vec![]]);
}

#[test]
fn encabezados_normalizados() {
    let hs = encabezados_de_celdas(&vec![t("  Codigo Ramo "), Celda::Logico(true), t("EST.APROBADOS"), Celda::Vacia]);
    assert_eq!(hs, vec!["codigo ramo", "1", "est.aprobados", ""]);
    let hs = encabezados_de_textos(&textos(&[" Asignatura", "Est.Total ", "% Aprob"]));
    assert_eq!(hs, vec!["asignatura", "est.total", "% aprob"]);
    let idx = indices_encabezado(&hs);
    assert_eq!(idx.codigo, 0);
    assert_eq!(idx.aprobados, Some(2));
    assert_eq!(idx.total, Some(1));
    assert_eq!(idx.porcentaje, Some(2));
    let idx = indices_encabezado(&textos(&["x", "y"]));
    assert_eq!((idx.codigo, idx.aprobados, idx.total, idx.porcentaje), (0, None, None, None));
}

#[test]
fn planes_de_porcentajes_por_celdas() {
    assert!(planes_desde_celdas(&vec![]).is_empty());
    let filas = vec![
        vec![t("Nombre"), t("CODIGO"), t("Est.Aprobados"), t("Est.Total"), t("Porcentaje")],
        vec![t("Algoritmos"), t(" CIT3313 "), t("1,200"), t("1,500"), t("80,5%")],
        vec![t("Vacio"), Celda::Vacia, t("1"), t("2"), t("3")],
        vec![t("Calculo"), Celda::Entero(101), Celda::Entero(10), decimal(20.0)],
    ];
    let p = planes_desde_celdas(&filas);
    assert_eq!(p.len(), 2);
    assert_eq!(p[0].codigo, "CIT3313");
    assert_eq!(p[0].intentos.len(), 3);
    assert!(es_razon(&p[0].intentos[0], "1200", "1500"));
    assert!(es_porcentaje(&p[0].intentos[1], "80.5"));
    assert!(es_porcentaje(&p[0].intentos[2], "CIT3313"));
    assert_eq!(p[1].codigo, "101");
    assert!(es_razon(&p[1].intentos[0], "10", "20"));
    assert!(es_porcentaje(&p[1].intentos[1], ""));
    assert!(es_porcentaje(&p[1].intentos[2], "101"));
}

#[test]
fn planes_de_porcentajes_por_textos() {
    assert!(planes_desde_textos(&vec![]).is_empty());
    let filas = vec![
        textos(&["Ramo", "Porcentaje %"]),
        textos(&[" MAT101 ", "75,5 %"]),
        textos(&["  ", "10"]),
        textos(&["FIS110"]),
    ];
    let p = planes_desde_textos(&filas);
    assert_eq!(p.len(), 2);
    assert_eq!(p[0].codigo, "MAT101");
    assert_eq!(p[0].intentos.len(), 2);
    assert!(es_porcentaje(&p[0].intentos[0], "75.5 "));
    assert!(es_porcentaje(&p[0].intentos[1], "75.5 "));
    assert_eq!(p[1].codigo, "FIS110");
    assert!(es_porcentaje(&p[1].intentos[0], ""));
}

#[test]
fn porcentajes_con_signo_y_coma_decimal() {
    let filas = vec![
        textos(&["Codigo", "Porcentaje"]),
        textos(&["A", "78%"]),
        textos(&["B", "78,5"]),
        textos(&["C", "78.5"]),
    ];
    let p = planes_desde_textos(&filas);
    assert_eq!(p.len(), 3);
    assert!(es_porcentaje(&p[0].intentos[0], "78"));
    assert!(es_porcentaje(&p[1].intentos[0], "78.5"));
    assert!(es_porcentaje(&p[2].intentos[0], "78.5"));
    assert_eq!(p[0].intentos.len(), 2);
}
