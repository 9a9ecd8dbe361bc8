use harbor::cli::{
    build_tile_url, config_path_from_args, parse_coordinate_range, tile_output_path, Axis, CliArgs, CliError,
    InputSource,
};

fn args(items: &[&str]) -> Vec<String> {
    items.iter().map(|s| s.to_string()).collect()
}

#[test]
fn parses_cli_with_explicit_config() {
    let args = args(&["osm_pbf_processor", "--config", "custom.toml", "5421.pbf"]);

    let cli = CliArgs::parse(&args)
        .expect("cli should parse")
        .expect("cli args should be present");

    assert_eq!(cli.input, InputSource::File("5421.pbf".to_string()));
    assert_eq!(cli.config_path, Some("custom.toml".to_string()));
}

#[test]
fn parses_cli_url_mode_with_default_zoom() {
    let args = args(&["osm_pbf_processor", "--url", "http://localhost:8080/data", "8396", "5421"]);

    let cli = CliArgs::parse(&args)
        .expect("cli should parse")
        .expect("cli args should be present");

    assert_eq!(
        cli.input,
        InputSource::Url {
            base_url: "http://localhost:8080/data".to_string(),
            zoom: 14,
            x_range: 8396..=8396,
            y_range: 5421..=5421,
        }
    );
}

#[test]
fn parses_cli_server_mode() {
    let args = args(&["osm_pbf_processor", "--server"]);

    let cli = CliArgs::parse(&args)
        .expect("cli should parse")
        .expect("cli args should be present");

    assert_eq!(cli.input, InputSource::Server);
}

#[test]
fn rejects_server_mode_with_url() {
    let args = args(&["osm_pbf_processor", "--server", "--url", "http://localhost:8080/data"]);

    let error = CliArgs::parse(&args).expect_err("cli should reject mixed server/url mode");

    assert!(error
        .message()
        .contains("server mode does not accept --url or tile coordinates"));
}

#[test]
fn rejects_server_mode_with_positionals() {
    let args = args(&["osm_pbf_processor", "--server", "8396", "5421"]);

    let error = CliArgs::parse(&args).expect_err("cli should reject positionals in server mode");

    assert!(error
        .message()
        .contains("server mode does not accept --url or tile coordinates"));
}

#[test]
fn parses_cli_url_mode_with_ranges() {
    let args = args(&[
        "osm_pbf_processor",
        "--url",
        "http://localhost:8080/data",
        "8396-8398",
        "5421-5422",
    ]);

    let cli = CliArgs::parse(&args)
        .expect("cli should parse")
        .expect("cli args should be present");

    assert_eq!(
        cli.input,
        InputSource::Url {
            base_url: "http://localhost:8080/data".to_string(),
            zoom: 14,
            x_range: 8396..=8398,
            y_range: 5421..=5422,
        }
    );
    assert_eq!(cli.tile_requests().len(), 6);
}

#[test]
fn url_mode_outputs_tiles_in_zoom_folder() {
    let args = args(&[
        "osm_pbf_processor",
        "--url",
        "http://localhost:8080/data",
        "8396",
        "5421",
        "--zoom",
        "15",
    ]);

    let cli = CliArgs::parse(&args)
        .expect("cli should parse")
        .expect("cli args should be present");

    assert_eq!(cli.tile_requests()[0].output_path, tile_output_path(15, 8396, 5421));
}

#[test]
fn builds_tile_url_from_sample_url() {
    let url = build_tile_url("http://localhost:8080/data/v3/14/8396/5421.pbf", 15, 1, 2);

    assert_eq!(url, "http://localhost:8080/data/v3/15/1/2.pbf");
}

#[test]
fn no_args_prints_usage_without_error() {
    let args = args(&["osm_pbf_processor"]);

    let cli = CliArgs::parse(&args).expect("usage should not error");

    assert!(cli.is_none());
}

#[test]
fn accepts_explicit_config_path() {
    let args = args(&["osm_pbf_processor", "--config", "custom.toml"]);

    assert_eq!(
        config_path_from_args(&args).expect("args should parse"),
        Some("custom.toml".to_string())
    );
}

#[test]
fn ignores_unknown_flags() {
    let args = args(&["osm_pbf_processor", "--server"]);

    assert_eq!(config_path_from_args(&args).expect("args should parse"), None);
}

#[test]
fn parses_coordinate_ranges_and_names_the_bad_part() {
    assert_eq!(parse_coordinate_range("8396-8398", Axis::X), Ok(8396..=8398));
    assert_eq!(parse_coordinate_range("5421", Axis::Y), Ok(5421..=5421));
    assert_eq!(parse_coordinate_range("a-3", Axis::X), Err(CliError::InvalidRangeStart(Axis::X)));
    assert_eq!(parse_coordinate_range("3-", Axis::Y), Err(CliError::InvalidRangeEnd(Axis::Y)));
    assert_eq!(parse_coordinate_range("9-3", Axis::X), Err(CliError::InvalidRangeOrder(Axis::X)));
    assert_eq!(parse_coordinate_range("x", Axis::Y), Err(CliError::InvalidCoordinate(Axis::Y)));
    assert_eq!(
        CliError::InvalidRangeOrder(Axis::X).message(),
        "invalid x range: start must be <= end"
    );
    assert!(!CliError::InvalidCoordinate(Axis::Y).prints_usage());
    assert!(CliError::UnknownFlag("--bad".to_string()).prints_usage());
}

#[test]
fn file_mode_writes_next_to_the_tile() {
    let cli = CliArgs::parse(&args(&["osm_pbf_processor", "tiles/5421.pbf"]))
        .expect("cli should parse")
        .expect("cli args should be present");
    let requests = cli.tile_requests();
    assert_eq!(requests.len(), 1);
    assert_eq!(requests[0].output_path, "tiles/5421.glb");
    assert_eq!(requests[0].source_label, "tiles/5421.pbf");
    assert_eq!(requests[0].fetch_url, None);
    assert_eq!(requests[0].file_path, Some("tiles/5421.pbf".to_string()));
}

#[test]
fn file_mode_replaces_or_adds_the_glb_extension() {
    let cases = [
        ("path/to/tile.pbf", "path/to/tile.glb"),
        ("tiles/noext", "tiles/noext.glb"),
        ("dir.v2/tile", "dir.v2/tile.glb"),
        ("tiles/.hidden", "tiles/.hidden.glb"),
        ("tiles/a.b.pbf", "tiles/a.b.glb"),
    ];
    for (input, expected) in cases {
        let cli = CliArgs::parse(&args(&["osm_pbf_processor", input]))
            .expect("cli should parse")
            .expect("cli args should be present");
        let requests = cli.tile_requests();
        assert_eq!(requests.len(), 1);
        assert_eq!(requests[0].output_path, expected);
    }
}
