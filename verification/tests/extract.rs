use quickshift::models::{MapaRamos, RamoDisponible, Seccion};
use quickshift::rutacritica::extract::{
    append_electivos, counter_cfg_aprobados, counter_cfg_malla, counter_electivos_aprobados,
    counter_electivos_malla, equivalencia, extract_data, safe_parse_seccion, secciones_cfg,
};

fn fila(celdas: &[&str]) -> Vec<String> {
    celdas.iter().map(|s| s.to_string()).collect()
}

fn ramo(codigo: &str) -> RamoDisponible {
    RamoDisponible {
        nombre: format!("Ramo {}", codigo),
        codigo: codigo.to_string(),
        holgura: 0,
        numb_correlativo: 1,
        critico: false,
        codigo_ref: Some(codigo.to_string()),
        dificultad: None,
    }
}

fn mapa(codigos: &[&str]) -> MapaRamos {
    let mut m = MapaRamos::new();
    for c in codigos {
        m.insert(c.to_string(), ramo(c));
    }
    m
}

/// Fila de cátedra de la oferta: ramo, nombre, sección, código, horario,
/// profesor y vacantes en sus columnas.
fn catedra(ramo: &str, codigo: &str, horario: &str, vacantes: &str) -> Vec<String> {
    fila(&["", ramo, "Nombre", codigo, codigo, "CATEDRA", "", horario, "", "Profesor", "", "", vacantes])
}

fn seccion(codigo: &str, caja: &str) -> Seccion {
    Seccion {
        codigo: codigo.to_string(),
        nombre: "x".to_string(),
        seccion: "1".to_string(),
        horario: vec![],
        profesor: "p".to_string(),
        codigo_box: caja.to_string(),
    }
}

#[test]
fn cuenta_cfg_de_la_malla() {
    let malla = vec![fila(&["1", "CFG101"]), fila(&["2", "CIT3313"]), fila(&["3", "CFG2"]), fila(&["CFG"])];
    assert_eq!(counter_cfg_malla(&malla), 2);
}

#[test]
fn cuenta_cfg_aprobados() {
    let aprobados = vec![fila(&["1", "CFG101"]), fila(&["2", "CF"]), fila(&["3", "CFGX"])];
    let (n, codigos) = counter_cfg_aprobados(&aprobados);
    assert_eq!(n, 2);
    assert_eq!(codigos, vec!["CFG101", "CFGX"]);
}

#[test]
fn cuenta_electivos() {
    let malla = vec![fila(&["1", "CIT3311"]), fila(&["2", "CIT3412"]), fila(&["3", "CIT3413"]), fila(&["4", "CIT32"])];
    assert_eq!(counter_electivos_malla(&malla), (1, 2));
    let aprobados = vec![fila(&["1", "CIT3412"]), fila(&["2", "CIT3311"]), fila(&["3", "MAT101"])];
    let (inf, tel, codigos) = counter_electivos_aprobados(&aprobados);
    assert_eq!((inf, tel), (1, 1));
    assert_eq!(codigos, vec!["CIT3412", "CIT3311"]);
}

#[test]
fn numero_de_seccion() {
    assert_eq!(safe_parse_seccion("CIT3313-12"), 12);
    assert_eq!(safe_parse_seccion("CIT3313-01"), 1);
    assert_eq!(safe_parse_seccion("CIT3313-1"), 1);
    assert_eq!(safe_parse_seccion("CIT3313"), 0);
    assert_eq!(safe_parse_seccion("CIT3313-xx"), 0);
    assert_eq!(safe_parse_seccion("CIT3313-99ABC"), 99);
}

#[test]
fn equivalencia_fija_referencias() {
    let mut m = mapa(&["A1", "B2", "C3"]);
    let oferta = vec![
        fila(&["", "A1", "", "", "", "", "", "LU 08:30"]),
        fila(&["", "B2", "", "", "", "", "", ""]),
    ];
    let equivalencias = vec![fila(&["B2", "B2X"]), fila(&["C3", "C3Y"]), fila(&["C3", "C3Z"]), fila(&["A1"])];
    equivalencia(&mut m, &oferta, &equivalencias);
    assert_eq!(m.get("A1").unwrap().codigo_ref.as_deref(), Some("A1"));
    assert_eq!(m.get("B2").unwrap().codigo_ref.as_deref(), Some("B2X"));
    assert_eq!(m.get("C3").unwrap().codigo_ref.as_deref(), Some("C3Z"));
    assert_eq!(m.len(), 3);
    // Una segunda pasada no cambia nada.
    equivalencia(&mut m, &oferta, &equivalencias);
    assert_eq!(m.get("C3").unwrap().codigo_ref.as_deref(), Some("C3Z"));
}

#[test]
fn electivos_tomables_con_requisitos() {
    let oferta = vec![
        catedra("CIT3399", "CIT3399-01", "LU MI 08:30 - 09:50", "5"),
        catedra("CIT3398", "CIT3398-01", "LU 10:00 - 11:20", "5"),
        catedra("CIT3499", "CIT3499-02", "MA JU VI 14:00 - 15:20", "3"),
    ];
    let aprobados = vec![fila(&["1", "CIT2000"])];
    let electivos = vec![
        fila(&["", "CIT3399", "", "", "CIT2000"]),
        fila(&["", "CIT3398", "", "", "CIT2000, CIT9999"]),
        fila(&["", "CIT3499", "", "", " CIT2000 "]),
    ];
    let mut lista: Vec<Seccion> = Vec::new();
    append_electivos(&mut lista, &oferta, &aprobados, &electivos, 2, 1, 0, 0, &vec![]);
    let pares: Vec<(String, String)> = lista.iter().map(|s| (s.codigo.clone(), s.codigo_box.clone())).collect();
    assert_eq!(
        pares,
        vec![
            ("CIT3399-01".to_string(), "CIT3310".to_string()),
            ("CIT3399-01".to_string(), "CIT3311".to_string()),
            ("CIT3499-02".to_string(), "CIT3410".to_string()),
        ]
    );
    assert_eq!(lista[0].horario, vec!["LU 08:30", "MI 08:30"]);
    assert_eq!(lista[2].horario, vec!["MA 14:00", "JU 14:00", "VI 14:00"]);
    assert_eq!(lista[0].seccion, "1");
}

#[test]
fn cfg_se_detiene_en_130() {
    let mut lista: Vec<Seccion> = (0..129).map(|i| seccion(&format!("S{}", i), "X")).collect();
    let cfg = vec![
        fila(&["", "Arte", "", "", "CFG000001A", "CATEDRA", "MA 10:00 - 11:20", "Prof", "", "", "CFG-ART"]),
        fila(&["", "Cine", "", "", "CFG0000002", "B", "MA JU 12:00 - 13:20", "Prof", "", "", "CFG-CINE"]),
    ];
    secciones_cfg(&mut lista, 3, 0, &vec![], &cfg);
    assert_eq!(lista.len(), 130);
    assert_eq!(lista[129].codigo, "CFG-ART");
    assert_eq!(lista[129].codigo_box, "CFG-1");
    assert_eq!(lista[129].horario, vec!["MA 10:00"]);
    assert_eq!(lista[129].seccion, "0");
}

#[test]
fn cfg_agrega_por_pasada() {
    let mut lista: Vec<Seccion> = Vec::new();
    let cfg = vec![
        fila(&["", "Arte", "", "", "CFG000001A", "CATEDRA", "MA 10:00 - 11:20", "Prof", "", "", "CFG-ART"]),
        fila(&["", "Cine", "", "", "CFG0000002", "B", "MA JU 12:00 - 13:20", "Prof", "", "", "CFG-CINE"]),
        fila(&["", "Otro", "", "", "CFG0000003", "L", "MA 12:00 - 13:20", "Prof", "", "", "CFG-OTRO"]),
        fila(&["", "Vacío", "", "", "CFG0000004", "C", "MA 12:00 - 13:20", "Prof", "", "", ""]),
    ];
    secciones_cfg(&mut lista, 2, 0, &vec![], &cfg);
    let pares: Vec<(String, String)> = lista.iter().map(|s| (s.codigo.clone(), s.codigo_box.clone())).collect();
    assert_eq!(
        pares,
        vec![
            ("CFG-ART".to_string(), "CFG-1".to_string()),
            ("CFG-CINE".to_string(), "CFG-1".to_string()),
            ("CFG-ART".to_string(), "CFG-2".to_string()),
            ("CFG-CINE".to_string(), "CFG-2".to_string()),
        ]
    );
    assert_eq!(lista[1].seccion, "2");
    assert_eq!(lista[1].horario, vec!["MA 12:00", "JU 12:00"]);
}

#[test]
fn extract_data_arma_la_ruta() {
    let ramos = mapa(&["CIT3313", "CIT3314"]);
    let oferta = vec![
        catedra("CIT3313", "CIT3313-01", "LU MI 08:30 - 09:50", "10"),
        catedra("CIT3313", "CIT3313-01", "LU MI 08:30 - 09:50", "10"),
        catedra("CIT3313", "CIT3313-99", "LU 08:30 - 09:50", "10"),
        catedra("CIT3313", "CIT3313-02", "LU 08:30 - 09:50", "0"),
        catedra("CIT3399", "CIT3399-01", "VI 08:30 - 09:50", "4"),
        fila(&["CIT3314-01", "CIT3314", "", "CIT3314-03", "", "", "", "Profe", "", "", "", "", "7"]),
        fila(&[]),
    ];
    let electivos = vec![fila(&["", "CIT3399", "", "", "CIT3311"])];
    let equivalencias: Vec<Vec<String>> = vec![];
    let aprobados = vec![fila(&["1", "CIT3311"]), fila(&["2", "CFG1"])];
    let malla = vec![fila(&["1", "CIT3311"]), fila(&["2", "CIT3312"]), fila(&["3", "CFG1"]), fila(&["4", "CFG2"])];
    let cfg = vec![fila(&["", "Arte", "", "", "CFG000001A", "CATEDRA", "MA 10:00 - 11:20", "Prof", "", "", "CFG-ART"])];
    let (lista, ramos) = extract_data(ramos, &oferta, &electivos, &equivalencias, &aprobados, &malla, Some(&cfg));
    let pares: Vec<(String, String)> = lista.iter().map(|s| (s.codigo.clone(), s.codigo_box.clone())).collect();
    assert_eq!(
        pares,
        vec![
            ("CIT3313-01".to_string(), "CIT3313".to_string()),
            ("CIT3314-01".to_string(), "CIT3314".to_string()),
            ("CIT3399-01".to_string(), "CIT3311".to_string()),
            ("CFG-ART".to_string(), "CFG-2".to_string()),
        ]
    );
    assert_eq!(lista[0].horario, vec!["LU 08:30", "MI 08:30"]);
    assert_eq!(lista[0].profesor, "Profesor");
    assert_eq!(lista[1].nombre, "CIT3314");
    assert_eq!(lista[1].profesor, "Profe");
    assert_eq!(lista[1].seccion, "3");
    assert!(lista[1].horario.is_empty());
    assert_eq!(ramos.get("CIT3313").unwrap().codigo_ref.as_deref(), Some("CIT3313"));
    // Sin la planilla de cursos de formación general no se agregan.
    let (lista2, _) = extract_data(mapa(&["CIT3313"]), &oferta, &electivos, &equivalencias, &aprobados, &malla, None);
    assert_eq!(lista2.len(), 2);
}

#[test]
fn extract_data_sin_pares_repetidos() {
    let ramos = mapa(&["A", "B"]);
    let mut oferta = Vec::new();
    for _ in 0..3 {
        oferta.push(catedra("A", "A-00000001", "LU 08:30 - 09:50", "1"));
        oferta.push(catedra("B", "A-00000001", "LU 08:30 - 09:50", "1"));
    }
    let vacia: Vec<Vec<String>> = vec![];
    let (lista, _) = extract_data(ramos, &oferta, &vacia, &vacia, &vacia, &vacia, None);
    assert_eq!(lista.len(), 2);
    for i in 0..lista.len() {
        for j in (i + 1)..lista.len() {
            assert!(!(lista[i].codigo == lista[j].codigo && lista[i].codigo_box == lista[j].codigo_box));
        }
    }
}

fn nuevas_sin_par_repetido(lista: &[Seccion], desde: usize) -> bool {
    for i in 0..lista.len() {
        for j in 0..lista.len() {
            if i != j && (i >= desde || j >= desde)
                && lista[i].codigo == lista[j].codigo && lista[i].codigo_box == lista[j].codigo_box
            {
                return false;
            }
        }
    }
    true
}

#[test]
fn electivos_agregados_sin_repetir_desde_lista_cualquiera() {
    // La lista ya trae un par repetido; lo agregado no repite ningún par.
    let mut lista = vec![seccion("X", "Y"), seccion("X", "Y"), seccion("CIT3399-01", "CIT3311")];
    let oferta = vec![
        catedra("CIT3399", "CIT3399-01", "LU 08:30 - 09:50", "5"),
        catedra("CIT3399", "CIT3399-01", "LU 08:30 - 09:50", "5"),
        catedra("CIT3398", "CIT3398-01", "MA 08:30 - 09:50", "5"),
    ];
    let aprobados = vec![fila(&["1", "CIT2000"])];
    let electivos = vec![fila(&["", "CIT3399", "", "", "CIT2000"]), fila(&["", "CIT3398", "", "", "CIT2000"])];
    append_electivos(&mut lista, &oferta, &aprobados, &electivos, 2, 0, 0, 0, &vec![]);
    assert!(nuevas_sin_par_repetido(&lista, 3));
    assert_eq!(lista[0].codigo, "X");
    // Cada fila que da un electivo queda en la caja de cada pasada.
    for caja in ["CIT3310", "CIT3311"] {
        for codigo in ["CIT3399-01", "CIT3398-01"] {
            assert!(lista.iter().any(|s| s.codigo == codigo && s.codigo_box == caja));
        }
    }
    assert_eq!(lista.len(), 6);
}

#[test]
fn cfg_agregados_sin_repetir_desde_lista_cualquiera() {
    let mut lista = vec![seccion("A", "B"), seccion("A", "B"), seccion("CFG-ART", "CFG-1")];
    let cfg = vec![
        fila(&["", "Arte", "", "", "CFG000001A", "CATEDRA", "MA 10:00 - 11:20", "Prof", "", "", "CFG-ART"]),
        fila(&["", "Arte", "", "", "CFG000001A", "CATEDRA", "MA 10:00 - 11:20", "Prof", "", "", "CFG-ART"]),
        fila(&["", "Cine", "", "", "CFG0000002", "B", "MA JU 12:00 - 13:20", "Prof", "", "", "CFG-CINE"]),
    ];
    secciones_cfg(&mut lista, 2, 0, &vec![], &cfg);
    assert!(nuevas_sin_par_repetido(&lista, 3));
    for caja in ["CFG-1", "CFG-2"] {
        for codigo in ["CFG-ART", "CFG-CINE"] {
            assert!(lista.iter().any(|s| s.codigo == codigo && s.codigo_box == caja));
        }
    }
    assert_eq!(lista.len(), 6);
}
