use aeon_bridge::document::{
    decimal_string, document_to_network, monotonicity_name, network_to_document, Monotonicity,
    Network, Regulation,
};

fn sample() -> Network {
    let names: Vec<String> = (0..12).map(|i| format!("v{}", i)).collect();
    Network {
        names,
        regulations: vec![
            Regulation { regulator: 0, target: 11, observable: true, monotonicity: Some(Monotonicity::Activation) },
            Regulation { regulator: 11, target: 0, observable: false, monotonicity: Some(Monotonicity::Inhibition) },
            Regulation { regulator: 3, target: 3, observable: true, monotonicity: None },
        ],
    }
}

#[test]
fn decimal_ids() {
    assert_eq!(decimal_string(0), "0");
    assert_eq!(decimal_string(7), "7");
    assert_eq!(decimal_string(10), "10");
    assert_eq!(decimal_string(40213), "40213");
}

#[test]
fn monotonicity_names() {
    assert_eq!(monotonicity_name(Monotonicity::Activation), "activation");
    assert_eq!(monotonicity_name(Monotonicity::Inhibition), "inhibition");
}

#[test]
fn document_lists_variables_and_regulations_in_order() {
    let doc = network_to_document(&sample());
    assert_eq!(doc.variables.len(), 12);
    assert_eq!(doc.variables[11].id, "11");
    assert_eq!(doc.variables[11].name, "v11");
    assert_eq!(doc.regulations[0].regulator, "0");
    assert_eq!(doc.regulations[0].target, "11");
    assert!(doc.regulations[0].observable);
    assert_eq!(doc.regulations[0].monotonicity.as_deref(), Some("activation"));
    assert_eq!(doc.regulations[1].monotonicity.as_deref(), Some("inhibition"));
    assert!(!doc.regulations[1].observable);
    assert_eq!(doc.regulations[2].monotonicity, None);
    assert!(doc.metadata.entries.is_empty());
}

#[test]
fn document_round_trip() {
    let net = sample();
    let back = document_to_network(&network_to_document(&net)).unwrap();
    assert_eq!(back.names, net.names);
    assert_eq!(back.regulations.len(), net.regulations.len());
    for (a, b) in back.regulations.iter().zip(net.regulations.iter()) {
        assert_eq!(a.regulator, b.regulator);
        assert_eq!(a.target, b.target);
        assert_eq!(a.observable, b.observable);
        assert_eq!(a.monotonicity, b.monotonicity);
    }
}

#[test]
fn document_with_unknown_id_is_refused() {
    let mut doc = network_to_document(&sample());
    doc.regulations[0].target = "12".to_string();
    assert!(document_to_network(&doc).is_none());
    let mut doc = network_to_document(&sample());
    doc.regulations[1].regulator = "01".to_string();
    assert!(document_to_network(&doc).is_none());
    let mut doc = network_to_document(&sample());
    doc.regulations[2].monotonicity = Some("both".to_string());
    assert!(document_to_network(&doc).is_none());
    let mut doc = network_to_document(&sample());
    doc.variables[4].id = "5".to_string();
    assert!(document_to_network(&doc).is_none());
}
