use quickshift::SAP_parser::{datos_desde_json, JsonInput, JsonRamo, JsonSeccion};

fn s(x: &str) -> Option<String> {
    Some(x.to_string())
}

#[test]
fn json_de_ejemplo() {
    let entrada = JsonInput {
        secciones: Some(vec![JsonSeccion {
            codigo: "MAT101-01".to_string(),
            nombre: s("Álgebra"),
            seccion: s("01"),
            horario: Some(vec!["LU 08:30".to_string(), "MI 08:30".to_string()]),
            profesor: s("Dr. X"),
            codigo_box: s("MAT101"),
        }]),
        ramos_disponibles: Some(vec![JsonRamo {
            codigo: "MAT101".to_string(),
            nombre: s("Álgebra"),
            aprobados: Some(1),
            prioridad: Some(0),
            codigo_ref: None,
        }]),
    };
    let (secciones, ramos) = datos_desde_json(&entrada);
    assert_eq!(secciones.len(), 1);
    assert_eq!(secciones[0].codigo, "MAT101-01");
    assert_eq!(secciones[0].nombre, "Álgebra");
    assert_eq!(secciones[0].seccion, "01");
    assert_eq!(secciones[0].horario, vec!["LU 08:30", "MI 08:30"]);
    assert_eq!(secciones[0].profesor, "Dr. X");
    assert_eq!(secciones[0].codigo_box, "MAT101");
    assert_eq!(ramos.len(), 1);
    let r = ramos.get("MAT101").unwrap();
    assert_eq!(r.nombre, "Álgebra");
    assert_eq!(r.holgura, 0);
    assert!(!r.critico);
    assert!(r.codigo_ref.is_none());
}

#[test]
fn json_con_valores_por_omision() {
    let entrada = JsonInput {
        secciones: Some(vec![JsonSeccion {
            codigo: "CIT3313-02".to_string(),
            nombre: None,
            seccion: None,
            horario: None,
            profesor: None,
            codigo_box: None,
        }]),
        ramos_disponibles: Some(vec![
            JsonRamo { codigo: "A".to_string(), nombre: None, aprobados: None, prioridad: None, codigo_ref: s("A0") },
            JsonRamo { codigo: "B".to_string(), nombre: s("Be"), aprobados: None, prioridad: None, codigo_ref: None },
            JsonRamo { codigo: "A".to_string(), nombre: s("A de nuevo"), aprobados: None, prioridad: None, codigo_ref: None },
        ]),
    };
    let (secciones, ramos) = datos_desde_json(&entrada);
    assert_eq!(secciones[0].nombre, "Sin nombre");
    assert_eq!(secciones[0].seccion, "1");
    assert_eq!(secciones[0].horario, vec!["Sin horario"]);
    assert_eq!(secciones[0].profesor, "Sin asignar");
    assert_eq!(secciones[0].codigo_box, "CIT3313");
    assert_eq!(ramos.len(), 2);
    assert_eq!(ramos.clave(0), "A");
    assert_eq!(ramos.get("A").unwrap().nombre, "A de nuevo");
    assert!(ramos.get("A").unwrap().codigo_ref.is_none());
    let vacio = JsonInput { secciones: None, ramos_disponibles: None };
    let (secciones, ramos) = datos_desde_json(&vacio);
    assert!(secciones.is_empty());
    assert_eq!(ramos.len(), 0);
}

