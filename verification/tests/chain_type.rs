use codechain_state::chain_type::{ChainType, SchemeSource};
use std::str::FromStr;

#[test]
fn built_in_chains_are_read_by_name() {
    assert_eq!(ChainType::from_str("mainnet"), Ok(ChainType::Mainnet));
    assert_eq!(ChainType::from_str("solo"), Ok(ChainType::Solo));
    assert_eq!(ChainType::from_str("tendermint"), Ok(ChainType::Tendermint));
    assert_eq!(ChainType::from_str("corgi"), Ok(ChainType::Corgi));
    assert_eq!(ChainType::from_str("beagle"), Ok(ChainType::Beagle));
}

#[test]
fn any_other_text_names_a_custom_chain() {
    assert_eq!(ChainType::from_str("scheme.json"), Ok(ChainType::Custom("scheme.json".to_string())));
    assert_eq!(ChainType::from_str(""), Ok(ChainType::Custom(String::new())));
    assert_eq!(ChainType::from_str("Mainnet"), Ok(ChainType::Custom("Mainnet".to_string())));
    assert_eq!(ChainType::from_str("solo "), Ok(ChainType::Custom("solo ".to_string())));
    assert_eq!("corgi".parse::<ChainType>(), Ok(ChainType::Corgi));
    assert_eq!(ChainType::parse("beagles"), ChainType::Custom("beagles".to_string()));
}

#[test]
fn default_chain_is_tendermint() {
    assert_eq!(ChainType::default(), ChainType::Tendermint);
}

#[test]
fn chain_types_are_written_by_name() {
    assert_eq!(ChainType::Mainnet.to_string(), "mainnet");
    assert_eq!(ChainType::Solo.to_string(), "solo");
    assert_eq!(ChainType::Tendermint.to_string(), "tendermint");
    assert_eq!(ChainType::Corgi.to_string(), "corgi");
    assert_eq!(ChainType::Beagle.to_string(), "beagle");
    assert_eq!(ChainType::Custom("a/b.json".to_string()).to_string(), "a/b.json");
}

#[test]
fn written_chain_type_is_read_back() {
    for chain in [
        ChainType::Mainnet,
        ChainType::Solo,
        ChainType::Tendermint,
        ChainType::Corgi,
        ChainType::Beagle,
        ChainType::Custom("my chain".to_string()),
    ] {
        assert_eq!(ChainType::parse(&chain.to_string()), chain);
    }
    // A custom chain that bears a built-in name is read back as the built-in chain.
    assert_eq!(ChainType::parse(&ChainType::Custom("solo".to_string()).to_string()), ChainType::Solo);
}

#[test]
fn scheme_of_a_built_in_chain_is_built_in() {
    assert_eq!(ChainType::Mainnet.scheme(), SchemeSource::Builtin(ChainType::Mainnet));
    assert_eq!(ChainType::Solo.scheme(), SchemeSource::Builtin(ChainType::Solo));
    assert_eq!(ChainType::Tendermint.scheme(), SchemeSource::Builtin(ChainType::Tendermint));
    assert_eq!(ChainType::Corgi.scheme(), SchemeSource::Builtin(ChainType::Corgi));
    assert_eq!(ChainType::Beagle.scheme(), SchemeSource::Builtin(ChainType::Beagle));
}

#[test]
fn scheme_of_a_custom_chain_is_its_file() {
    assert_eq!(
        ChainType::Custom("chains/test.json".to_string()).scheme(),
        SchemeSource::File("chains/test.json".to_string())
    );
}

#[test]
fn load_error_names_the_file_and_the_cause() {
    assert_eq!(
        ChainType::load_error("chains/test.json", "No such file or directory (os error 2)"),
        "Could not load specification file at chains/test.json: No such file or directory (os error 2)"
    );
    assert_eq!(ChainType::load_error("", ""), "Could not load specification file at : ");
}
