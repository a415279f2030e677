use aeon_bridge::convert::{
    aeon_to_bnet, aeon_to_sbml, aeon_to_sbml_instantiated, aeon_with_layout, bnet_to_aeon,
    check_model, read_aeon_model, read_bnet_model, read_sbml_model, sbml_to_aeon,
    ConversionResult,
};
use aeon_bridge::convert::SbmlModel;
use aeon_bridge::document::{Monotonicity, Network, Regulation};
use aeon_bridge::layout::{read_layout, Layout, LayoutEntry};
use biodivine_lib_param_bn::BooleanNetwork;

fn import(text: &str) -> Result<SbmlModel, String> {
    let mut warnings = Vec::new();
    let (bn, layout) = BooleanNetwork::try_from_sbml_strict(text, &mut warnings)?;
    let names = bn.variables().map(|v| bn.get_variable_name(v).clone()).collect();
    let regulations = bn
        .as_graph()
        .regulations()
        .map(|r| Regulation {
            regulator: r.get_regulator().into(),
            target: r.get_target().into(),
            observable: r.is_observable(),
            monotonicity: r.get_monotonicity().map(|m| match m {
                biodivine_lib_param_bn::Monotonicity::Activation => Monotonicity::Activation,
                biodivine_lib_param_bn::Monotonicity::Inhibition => Monotonicity::Inhibition,
            }),
        })
        .collect();
    let entries = layout
        .into_iter()
        .map(|(name, (x, y))| LayoutEntry { name, x: x.to_string(), y: y.to_string() })
        .collect();
    Ok(SbmlModel {
        aeon: bn.to_string(),
        network: Network { names, regulations },
        layout: Layout { entries },
        warnings,
    })
}

const MODEL: &str = "a -> b\nb -| a\n$a: !b\n$b: a\n#position:a:1,2\n#position:b:3.5,4\n#name:demo\n";

#[test]
fn invalid_aeon_gives_an_error_and_no_result() {
    match read_aeon_model("a -> \n this is not a model ->>") {
        ConversionResult::Failure { errors } => {
            assert_eq!(errors.len(), 1);
            assert!(!errors[0].is_empty());
        }
        ConversionResult::Success { .. } => panic!("accepted an invalid model"),
    }
    assert!(check_model("a -> \n this is not a model ->>").is_some());
}

#[test]
fn aeon_model_becomes_a_document() {
    assert!(check_model(MODEL).is_none());
    match read_aeon_model(MODEL) {
        ConversionResult::Success { document, warnings } => {
            assert!(warnings.is_empty());
            let names: Vec<&str> = document.variables.iter().map(|v| v.name.as_str()).collect();
            assert_eq!(names, vec!["a", "b"]);
            assert_eq!(document.variables[1].id, "1");
            assert_eq!(document.regulations.len(), 2);
            let leaves: Vec<(Vec<String>, String)> = document
                .metadata
                .entries
                .iter()
                .map(|e| (e.path.clone(), e.value.clone()))
                .collect();
            assert!(leaves.contains(&(vec!["position".to_string(), "b".to_string()], "3.5,4".to_string())));
            assert!(leaves.contains(&(vec!["name".to_string()], "demo".to_string())));
        }
        ConversionResult::Failure { errors } => panic!("{:?}", errors),
    }
}

#[test]
fn sbml_round_trip_keeps_layout() {
    let sbml = aeon_to_sbml(MODEL).unwrap();
    let aeon = sbml_to_aeon(import(&sbml)).unwrap();
    let layout = read_layout(&aeon);
    let found: Vec<(String, String, String)> =
        layout.entries.iter().map(|e| (e.name.clone(), e.x.clone(), e.y.clone())).collect();
    assert!(aeon.ends_with("\n#position:a:1,2\n#position:b:3.5,4\n"));
    assert_eq!(sbml_to_aeon(import(&sbml)).unwrap(), aeon);
    assert_eq!(
        found,
        vec![
            ("a".to_string(), "1".to_string(), "2".to_string()),
            ("b".to_string(), "3.5".to_string(), "4".to_string())
        ]
    );
    match read_sbml_model(import(&sbml)) {
        ConversionResult::Success { document, .. } => {
            assert_eq!(document.variables.len(), 2);
            assert_eq!(document.metadata.entries.len(), 2);
        }
        ConversionResult::Failure { errors } => panic!("{:?}", errors),
    }
    let err = match import("<not sbml") {
        Err(e) => e,
        Ok(_) => panic!("accepted an invalid model"),
    };
    assert!(!err.is_empty());
    assert_eq!(sbml_to_aeon(Err(err.clone())), Err(err.clone()));
    match read_sbml_model(Err(err.clone())) {
        ConversionResult::Failure { errors } => assert_eq!(errors, vec![err]),
        ConversionResult::Success { .. } => panic!("accepted an invalid model"),
    }
}

#[test]
fn instantiated_sbml() {
    let sbml = aeon_to_sbml_instantiated(MODEL).unwrap();
    assert!(sbml.contains("sbml"));
    assert!(aeon_to_sbml_instantiated("a -> ").is_err());
}

#[test]
fn bnet_conversions() {
    let bnet = aeon_to_bnet(MODEL).unwrap();
    let aeon = bnet_to_aeon(&bnet).unwrap();
    assert!(check_model(&aeon).is_none());
    match read_bnet_model(&bnet) {
        ConversionResult::Success { document, .. } => {
            assert_eq!(document.variables.len(), 2);
            assert!(document.metadata.entries.is_empty());
        }
        ConversionResult::Failure { errors } => panic!("{:?}", errors),
    }
    assert!(bnet_to_aeon("targets, factors\nx, &&&").is_err());
}

#[test]
fn layout_follows_the_model_text() {
    let layout = Layout {
        entries: vec![LayoutEntry { name: "a".to_string(), x: "1".to_string(), y: "2".to_string() }],
    };
    assert_eq!(aeon_with_layout("a -> a", &layout), "a -> a\n#position:a:1,2\n");
}

#[test]
fn sbml_model_keeps_its_warnings_and_sorts_its_layout() {
    let model = SbmlModel {
        aeon: "a -> b".to_string(),
        network: Network {
            names: vec!["a".to_string(), "b".to_string()],
            regulations: vec![Regulation { regulator: 0, target: 1, observable: true, monotonicity: None }],
        },
        layout: Layout {
            entries: vec![
                LayoutEntry { name: "b".to_string(), x: "1".to_string(), y: "2".to_string() },
                LayoutEntry { name: "a".to_string(), x: "3".to_string(), y: "4".to_string() },
            ],
        },
        warnings: vec!["w1".to_string(), "w2".to_string()],
    };
    let text = sbml_to_aeon(Ok(SbmlModel {
        aeon: model.aeon.clone(),
        network: Network { names: model.network.names.clone(), regulations: model.network.regulations.clone() },
        layout: Layout {
            entries: model.layout.entries.iter().map(|e| LayoutEntry { name: e.name.clone(), x: e.x.clone(), y: e.y.clone() }).collect(),
        },
        warnings: model.warnings.clone(),
    }))
    .unwrap();
    assert_eq!(text, "a -> b\n#position:a:3,4\n#position:b:1,2\n");
    match read_sbml_model(Ok(model)) {
        ConversionResult::Success { document, warnings } => {
            assert_eq!(warnings, vec!["w1".to_string(), "w2".to_string()]);
            assert_eq!(document.regulations[0].target, "1");
            assert_eq!(document.metadata.entries.len(), 2);
        }
        ConversionResult::Failure { errors } => panic!("{:?}", errors),
    }
}
