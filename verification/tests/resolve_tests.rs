use abigen_util::resolve::{
    determine_ethers_crates, ethers_contract_crate, ethers_core_crate, ethers_providers_crate,
    lock_cleanup_needed, DependencyEntry, DependencyKind,
};
use quote::ToTokens;

#[test]
fn resolves_umbrella_when_normal_dep_present() {
    let deps = vec![
        DependencyEntry { name: "serde".to_string(), kind: DependencyKind::Normal },
        DependencyEntry { name: "ethers".to_string(), kind: DependencyKind::Normal },
    ];
    let p = determine_ethers_crates(Some(&deps));
    assert_eq!(p.core, "ethers::core");
    assert_eq!(p.contract, "ethers::contract");
    assert_eq!(p.providers, "ethers::providers");
}

#[test]
fn falls_back_without_umbrella_dep() {
    let deps = vec![
        DependencyEntry { name: "serde".to_string(), kind: DependencyKind::Normal },
        DependencyEntry { name: "ethers-core".to_string(), kind: DependencyKind::Normal },
    ];
    let p = determine_ethers_crates(Some(&deps));
    assert_eq!(p.core, "ethers_core");
    assert_eq!(p.contract, "ethers_contract");
    assert_eq!(p.providers, "ethers_providers");
}

#[test]
fn non_normal_umbrella_dep_is_ignored() {
    let deps = vec![
        DependencyEntry { name: "ethers".to_string(), kind: DependencyKind::Development },
        DependencyEntry { name: "ethers".to_string(), kind: DependencyKind::Build },
    ];
    let p = determine_ethers_crates(Some(&deps));
    assert_eq!(p.core, "ethers_core");
}

#[test]
fn failed_query_falls_back() {
    let p = determine_ethers_crates(None);
    assert_eq!(p.core, "ethers_core");
    assert_eq!(p.contract, "ethers_contract");
    assert_eq!(p.providers, "ethers_providers");
}

#[test]
fn resolution_is_deterministic() {
    let deps = vec![DependencyEntry { name: "ethers".to_string(), kind: DependencyKind::Normal }];
    let a = determine_ethers_crates(Some(&deps));
    let b = determine_ethers_crates(Some(&deps));
    assert_eq!(a.core, b.core);
    assert_eq!(a.contract, b.contract);
    assert_eq!(a.providers, b.providers);
}

#[test]
fn resolved_paths_parse_as_paths() {
    let standalone = determine_ethers_crates(None);
    assert_eq!(
        ethers_core_crate(&standalone).unwrap().to_token_stream().to_string(),
        "ethers_core"
    );
    assert_eq!(
        ethers_contract_crate(&standalone).unwrap().to_token_stream().to_string(),
        "ethers_contract"
    );
    assert_eq!(
        ethers_providers_crate(&standalone).unwrap().to_token_stream().to_string(),
        "ethers_providers"
    );
    let deps = vec![DependencyEntry { name: "ethers".to_string(), kind: DependencyKind::Normal }];
    let umbrella = determine_ethers_crates(Some(&deps));
    assert_eq!(
        ethers_core_crate(&umbrella).unwrap().to_token_stream().to_string(),
        "ethers :: core"
    );
}

#[test]
fn lock_cleanup_rule() {
    assert!(lock_cleanup_needed(false));
    assert!(!lock_cleanup_needed(true));
}
