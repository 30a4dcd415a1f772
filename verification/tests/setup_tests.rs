use rust_practice::dataset::{dataset_covariates, explanatory_columns, unit_interval_bits, CSV_FILE};
use rust_practice::pg::{create_manager, expand_home, pg_config, PgManager, PgSetupError};

#[test]
fn expands_tilde() {
    assert_eq!(expand_home("~/.ssl/ca.pem", "/home/pgusr"), "/home/pgusr/.ssl/ca.pem");
    assert_eq!(expand_home("/etc/ssl/ca.pem", "/home/pgusr"), "/etc/ssl/ca.pem");
    assert_eq!(expand_home("~a~", "/h"), "/ha/h");
    assert_eq!(expand_home("", "/h"), "");
}

#[test]
fn manager_for_valid_connection_string() {
    assert!(create_manager(None, "host=localhost dbname=empty_db user=pgusr").is_ok());
    assert!(create_manager(None, "postgresql://pgusr@localhost/empty_db").is_ok());
}

#[test]
fn manager_refuses_bad_connection_string() {
    assert!(matches!(
        create_manager(None, "host=localhost port=notaport"),
        Err(PgSetupError::InvalidConfig(_))
    ));
    assert!(pg_config("host=localhost port=notaport").is_err());
    assert!(pg_config("host=localhost").is_ok());
}

#[test]
fn covariates_of_dataset() {
    let rows = dataset_covariates();
    assert_eq!(rows.len(), 30);
    assert_eq!(rows[0], (1, 0));
    assert_eq!(rows[11], (12, 0));
    assert_eq!(rows[12], (13, 1));
    assert_eq!(rows[25], (26, 2));
    assert_eq!(rows[29], (30, 2));
    assert_eq!(CSV_FILE, "dataset.csv");
}

#[test]
fn columns_without_response() {
    assert_eq!(explanatory_columns(3, 2), vec![0, 1]);
    assert_eq!(explanatory_columns(4, 1), vec![0, 2, 3]);
    assert_eq!(explanatory_columns(2, 5), vec![0, 1]);
    assert_eq!(explanatory_columns(0, 0), Vec::<usize>::new());
}

#[test]
fn unit_interval_bit_patterns() {
    assert_eq!(unit_interval_bits(0), 0x3ff0_0000_0000_0000);
    assert_eq!(unit_interval_bits(u64::MAX), 0x3fff_ffff_ffff_ffff);
    assert_eq!(unit_interval_bits(0x1000), 0x3ff0_0000_0000_0001);
    let x = f64::from_bits(unit_interval_bits(u64::MAX)) - 1.0;
    assert!((0.0..1.0).contains(&x));
}

#[test]
fn manager_transport_follows_connector() {
    assert!(matches!(create_manager(None, "host=localhost"), Ok(PgManager::Plain { .. })));
    let config = rustls::ClientConfig::builder()
        .with_root_certificates(rustls::RootCertStore::empty())
        .with_no_client_auth();
    let tls = tokio_postgres_rustls::MakeRustlsConnect::new(config);
    assert!(matches!(create_manager(Some(tls), "host=localhost"), Ok(PgManager::Tls { .. })));
}

#[test]
fn config_holds_the_connection_settings() {
    let c = pg_config("host=localhost dbname=empty_db user=pgusr").unwrap();
    assert_eq!(c.get_dbname(), Some("empty_db"));
    assert_eq!(c.get_user(), Some("pgusr"));
    let m = create_manager(None, "host=localhost dbname=other_db").unwrap();
    assert_eq!(m.config().get_dbname(), Some("other_db"));
}
