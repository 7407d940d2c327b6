//! The project nidhogg: addresses, queries and commands.

use brokkr::error::DevError;
use brokkr::measure::MeasureMode;
use brokkr::nidhogg::bench_api::{
    api_config, choose_queries, parse_time, report_response_stats, run_curl_timed,
};
use brokkr::nidhogg::bench_tiles::{
    after_line, is_ready_line, next_request, not_ready_error, pass_line, run_lifecycle, sample_line, server_args,
    tiles_config, StartStep,
};
use brokkr::nidhogg::client::{
    batch_query_url, bbox_to_api, build_api_queries, build_batch_queries, curl_get, curl_post, default_api_query,
    element_count, geocode_top_name, geocode_url, health_check, path_str, query_url,
    shrink_bbox, sized_args, tile_url, timed_args, url_encode, Ended,
};
use brokkr::nidhogg::commands::NidhoggCommand;
use brokkr::nidhogg::dispatch::{
    check_tool, hotpath_lines, ingest_run_outcome, list_output_files, profile_config, run_command, tiles_features, Route,
};
use brokkr::nidhogg::query;
use brokkr::nidhogg::server::status as server_status;
use brokkr::nidhogg::server::{
    check_running, is_nidhogg_process, poll_for_ready, recorded_pid, resolve_port, serve, serve_args, stop_pid,
    ReadyStep, StopPhase,
};
use brokkr::nidhogg::verify_batch;
use brokkr::nidhogg::verify_batch::{read_single, run_batch_query};
use brokkr::nidhogg::verify_geocode;
use brokkr::nidhogg::verify_geocode::run_single_geocode;
use brokkr::nidhogg::verify_readonly;
use brokkr::nidhogg::verify_readonly::{permission_args, run_geocode_check, run_query_check, Check, NamedCheck};
use brokkr::number::double::Double;
use brokkr::output::Message;
use brokkr::path::FilePath;
use brokkr::project::Project;

#[test]
fn passthrough_alphanumerics() {
    assert_eq!(url_encode("abcXYZ019"), "abcXYZ019");
}

#[test]
fn passthrough_unreserved_symbols() {
    assert_eq!(url_encode("-_.~"), "-_.~");
}

#[test]
fn empty_string() {
    assert_eq!(url_encode(""), "");
}

#[test]
fn space_encoded() {
    assert_eq!(url_encode("hello world"), "hello%20world");
}

#[test]
fn special_chars_ampersand_equals_slash() {
    assert_eq!(url_encode("a&b=c/d"), "a%26b%3Dc%2Fd");
}

#[test]
fn question_mark_and_hash() {
    assert_eq!(url_encode("?q=1#top"), "%3Fq%3D1%23top");
}

#[test]
fn non_ascii_utf8_multibyte() {
    let encoded = url_encode("K\u{f8}benhavn");
    assert!(encoded.starts_with("K%C3%B8benhavn"));
}

#[test]
fn full_utf8_multibyte_cjk() {
    let encoded = url_encode("\u{4E16}");
    assert_eq!(encoded, "%E4%B8%96");
}

#[test]
fn percent_sign_itself_is_encoded() {
    assert_eq!(url_encode("100%"), "100%25");
}

#[test]
fn all_bytes_in_query_string() {
    let input = "key=hello world&other=foo/bar";
    let encoded = url_encode(input);
    assert!(!encoded.contains('&'));
    assert!(!encoded.contains('='));
    assert!(!encoded.contains('/'));
    assert!(!encoded.contains(' '));
    assert!(encoded.contains("key"));
    assert!(encoded.contains("hello"));
}

#[test]
fn explicit_level_with_defaults_off_still_works() {
    let url = query_url(3033);
    assert_eq!(url, "http://localhost:3033/api/query");
}

#[test]
fn batch_url_format() {
    let url = batch_query_url(3033);
    assert_eq!(url, "http://localhost:3033/api/query_batch");
}

#[test]
fn geocode_url_encodes_term() {
    let url = geocode_url(3033, "hello world");
    assert_eq!(url, "http://localhost:3033/api/geocode?q=hello%20world");
}

#[test]
fn bbox_to_api_swaps_lon_lat() {
    let result = bbox_to_api("12.4,55.6,12.7,55.8").unwrap();
    assert_eq!(result, "[55.6,12.4,55.8,12.7]");
}

#[test]
fn bbox_to_api_rejects_bad_count() {
    assert!(bbox_to_api("1,2,3").is_err());
    assert!(bbox_to_api("1,2,3,4,5").is_err());
}

#[test]
fn shrink_bbox_produces_center_quarter() {
    let result = shrink_bbox("10.0,50.0,14.0,54.0").unwrap();
    let parts: Vec<f64> = result.split(',').map(|s| s.parse().unwrap()).collect();
    assert_eq!(parts.len(), 4);
    assert!((parts[0] - 11.0).abs() < 1e-10);
    assert!((parts[1] - 51.0).abs() < 1e-10);
    assert!((parts[2] - 13.0).abs() < 1e-10);
    assert!((parts[3] - 53.0).abs() < 1e-10);
}

#[test]
fn build_api_queries_produces_four() {
    let queries = build_api_queries("12.4,55.6,12.7,55.8").unwrap();
    assert_eq!(queries.len(), 4);
    for (_, body) in &queries {
        let parsed: serde_json::Value = serde_json::from_str(body).unwrap();
        assert!(parsed.get("bbox").is_some());
    }
}

#[test]
fn build_batch_queries_produces_matching_names() {
    let (batch, individual) = build_batch_queries("12.4,55.6,12.7,55.8").unwrap();
    let _: serde_json::Value = serde_json::from_str(&batch).unwrap();
    assert_eq!(individual.len(), 4);
    let names: Vec<&str> = individual.iter().map(|(n, _)| n.as_str()).collect();
    assert!(names.contains(&"roads"));
    assert!(names.contains(&"infra"));
    assert!(names.contains(&"coastline"));
    assert!(names.contains(&"landcover"));
}

#[test]
fn api_id() {
    let cmd = NidhoggCommand::Api { query: None };
    assert_eq!(cmd.id(), "api");
}

#[test]
fn ingest_id() {
    assert_eq!(NidhoggCommand::Ingest.id(), "nid-ingest");
}

#[test]
fn tiles_id() {
    let cmd = NidhoggCommand::Tiles {
        tiles_variant: None,
        uring: false,
    };
    assert_eq!(cmd.id(), "tiles");
}

#[test]
fn only_ingest_supports_hotpath() {
    assert!(!NidhoggCommand::Api { query: None }.supports_hotpath());
    assert!(NidhoggCommand::Ingest.supports_hotpath());
    assert!(
        !NidhoggCommand::Tiles {
            tiles_variant: None,
            uring: false,
        }
        .supports_hotpath()
    );
}

#[test]
fn package_none_for_api() {
    assert_eq!(NidhoggCommand::Api { query: None }.package(), None);
    assert_eq!(NidhoggCommand::Ingest.package(), Some("nidhogg"));
    assert_eq!(
        NidhoggCommand::Tiles {
            tiles_variant: None,
            uring: false,
        }
        .package(),
        Some("nidhogg")
    );
}

#[test]
fn result_command_labels() {
    assert_eq!(
        NidhoggCommand::Api { query: None }.result_command(),
        "api"
    );
    assert_eq!(NidhoggCommand::Ingest.result_command(), "ingest");
    assert_eq!(
        NidhoggCommand::Tiles {
            tiles_variant: None,
            uring: false,
        }
        .result_command(),
        "tiles"
    );
}

#[test]
fn metadata_is_empty_post_v13() {
    assert!(
        NidhoggCommand::Api {
            query: Some("bbox-small".into())
        }
        .metadata()
        .is_empty()
    );
    assert!(NidhoggCommand::Ingest.metadata().is_empty());
    assert!(
        NidhoggCommand::Tiles {
            tiles_variant: None,
            uring: true,
        }
        .metadata()
        .is_empty()
    );
}

#[test]
fn api_needs_server_not_build() {
    let cmd = NidhoggCommand::Api { query: None };
    assert!(!cmd.needs_build());
    assert!(cmd.needs_server());
}

#[test]
fn ingest_needs_build_not_server() {
    assert!(NidhoggCommand::Ingest.needs_build());
    assert!(!NidhoggCommand::Ingest.needs_server());
}

#[test]
fn tiles_needs_build_not_server() {
    let cmd = NidhoggCommand::Tiles {
        tiles_variant: None,
        uring: false,
    };
    assert!(cmd.needs_build());
    assert!(!cmd.needs_server());
}

fn done(success: bool, code: Option<i32>, stdout: &[u8], stderr: &[u8]) -> Ended {
    Ended::Done { success, code, stdout: stdout.to_vec(), stderr: stderr.to_vec() }
}

#[test]
fn queries_are_written_out() {
    assert_eq!(
        default_api_query("1,2,3,4").unwrap(),
        "{\"bbox\":[2,1,4,3],\"query\":[{\"highway\":[\"motorway\",\"trunk\",\"primary\",\"secondary\",\"tertiary\",\"residential\"]}]}"
    );
    let Err(DevError::Config(m)) = bbox_to_api("1,2") else {
        panic!("expected DevError::Config");
    };
    assert_eq!(m, "bbox must have 4 comma-separated values, got 2: 1,2");
    let Err(DevError::Config(m)) = shrink_bbox("1,x,3,4") else {
        panic!("expected DevError::Config");
    };
    assert!(m.contains('x'), "{m}");
    assert_eq!(shrink_bbox("10,50,14,54").unwrap(), "11,51,13,53");
    assert_eq!(tile_url(80, 3, 4, 5), "http://localhost:80/api/tiles/3/4/5");
}

#[test]
fn every_byte_that_is_not_plain_is_encoded() {
    for b in 0u8..=127 {
        let c = b as char;
        let out = url_encode(&c.to_string());
        if c.is_ascii_alphanumeric() || "-_.~".contains(c) {
            assert_eq!(out, c.to_string());
        } else {
            assert_eq!(out, format!("%{b:02X}"));
        }
    }
}

#[test]
fn programs_end_well_or_badly() {
    assert_eq!(curl_get(done(true, Some(0), b"ok\xff", b"")).unwrap(), "ok\u{fffd}");
    let Err(DevError::Subprocess { program, code, stderr }) = curl_post(done(false, Some(7), b"", b"no")) else {
        panic!("expected DevError::Subprocess");
    };
    assert_eq!((program.as_str(), code, stderr.as_str()), ("curl", Some(7), "no"));
    assert!(curl_get(Ended::NotStarted("x".to_string())).is_err());
    assert!(!health_check(Ended::NotStarted("x".to_string())));
    assert!(!health_check(done(false, Some(1), b"200", b"")));
    assert_eq!(parse_time("0.25\n").unwrap(), 250);
    assert!(parse_time("fast").is_err());
}

#[test]
fn replies_are_read() {
    let reply = "{\"elements\":[{\"type\":\"way\"},{\"type\":\"relation\"},{\"type\":\"way\"},{}]}";
    assert_eq!(element_count(reply), 4);
    assert_eq!(query::run(reply).unwrap(), "4 elements: way=2, relation=1, other=1");
    assert_eq!(query::run("{}").unwrap(), "no elements in response");
    let Err(DevError::Verify(m)) = query::run("{") else {
        panic!("expected DevError::Verify");
    };
    assert!(m.starts_with("invalid JSON from query API: "), "{m}");
    let places = "[{\"displayName\":\"Aarhus\",\"lat\":56.15,\"lon\":10.2},{}]";
    assert_eq!(
        query::geocode("aarhus", places).unwrap(),
        vec!["2 results for 'aarhus'", "  top: Aarhus (56.1500, 10.2000)"]
    );
    assert_eq!(query::geocode("x", "[]").unwrap(), vec!["0 results for 'x'"]);
    assert_eq!(query::geocode("x", "{}").unwrap(), vec!["unexpected response format (not an array)"]);
    assert_eq!(geocode_top_name(places).as_deref(), Some("Aarhus"));
    assert_eq!(geocode_top_name("[]"), None);
    assert_eq!(
        report_response_stats("q", "{\"elements\":[1,2]}\n123"),
        "q: 2 elements, 123 bytes response"
    );
}

fn texts(out: &[Message]) -> Vec<String> {
    out.iter()
        .map(|m| match m {
            Message::Run(t) | Message::Result(t) | Message::Verify(t) | Message::Bench(t) => t.clone(),
            Message::Error(t) => format!("error: {t}"),
        })
        .collect()
}

#[test]
fn a_batch_is_compared_filter_by_filter() {
    let reply = "{\"roads\":{\"elements\":[1,2]},\"a/b~\":{\"elements\":[1]},\"none\":{\"elements\":[]}}";
    let Ok(batch) = run_batch_query(reply, 12) else {
        panic!("expected a batch");
    };
    assert_eq!(
        batch.filter_counts,
        vec![("a/b~".to_string(), 1), ("none".to_string(), 0), ("roads".to_string(), 2)]
    );
    let Ok(roads) = read_single("roads", "{\"elements\":[1,2]}", 3) else {
        panic!("expected a result");
    };
    let Ok(none) = read_single("none", "{\"elements\":[]}", 4) else {
        panic!("expected a result");
    };
    let mut out = vec![];
    let Err(DevError::Config(m)) = verify_batch::run(&batch, &[roads, none], &mut out) else {
        panic!("expected DevError::Config");
    };
    assert_eq!(m, "batch verification failed: 1 check(s) returned 0 elements");
    let lines = texts(&out);
    assert_eq!(lines[1], "  batch query: 12 ms");
    assert!(lines.contains(&"  total: 3 elements".to_string()), "{lines:?}");
    assert!(lines.contains(&"error: none: returned 0 elements".to_string()), "{lines:?}");
}

#[test]
fn lookups_and_checks_are_counted() {
    let results = vec![
        ("a".to_string(), run_single_geocode(true, "[{\"displayName\":\"A\"}]")),
        ("b".to_string(), run_single_geocode(true, "[]")),
        ("c".to_string(), run_single_geocode(false, "")),
    ];
    let mut out = vec![];
    let Err(DevError::Config(m)) = verify_geocode::run(&results, &mut out) else {
        panic!("expected DevError::Config");
    };
    assert_eq!(m, "geocode verification failed: 2 query(ies) returned no results");
    assert!(texts(&out).contains(&"PASS  'a': 1 results (top: A)".to_string()));
    assert!(run_geocode_check(true, "[1]"));
    assert!(!run_geocode_check(true, "[]"));
    assert!(run_query_check(true, "{\"elements\":[1]}"));
    assert!(!run_query_check(false, "{\"elements\":[1]}"));
    let checks = vec![
        NamedCheck { name: "x".to_string(), check: Check::Passed },
        NamedCheck { name: "y".to_string(), check: Check::Passed },
    ];
    let mut out = vec![];
    assert!(verify_readonly::run(&checks, &mut out).is_ok());
    assert_eq!(texts(&out).last().map(String::as_str), Some("read-only verification passed"));
    assert_eq!(permission_args("/d", false), vec!["-R", "a-w", "/d"]);
}

#[test]
fn a_server_is_killed_only_if_it_stays() {
    let mut phase = StopPhase::Ask;
    phase = stop_pid(phase, true);
    assert_eq!(phase, StopPhase::Watch(0));
    phase = stop_pid(phase, true);
    assert_eq!(phase, StopPhase::Watch(1));
    phase = stop_pid(phase, false);
    assert_eq!(phase, StopPhase::Stopped);
    assert_eq!(stop_pid(StopPhase::Ask, false), StopPhase::NotRunning);
    let mut stubborn = stop_pid(StopPhase::Ask, true);
    let mut looks = 0;
    while let StopPhase::Watch(_) = stubborn {
        stubborn = stop_pid(stubborn, true);
        looks += 1;
        assert!(looks < 1000);
    }
    assert_eq!(stubborn, StopPhase::Identify);
    assert_eq!(stop_pid(StopPhase::Identify, true), StopPhase::Kill);
    assert!(is_nidhogg_process(b"/x/nidhogg\0serve\0"));
    assert!(!is_nidhogg_process(b"/bin/sh\0"));
    assert_eq!(recorded_pid(" 12\n"), Some(12));
    assert_eq!(recorded_pid("x"), None);
    assert_eq!(serve_args("/d", Some("/t")), vec!["serve", "/d", "--tiles", "/t"]);
    assert_eq!(server_status(3033, false), "server not running on port 3033");
    assert!(check_running(3033, Ok(true)).is_ok());
    assert!(matches!(check_running(3033, Ok(false)), Err(DevError::Config(m))
        if m == "nidhogg server is not running on port 3033\nStart it with: brokkr serve"));
    assert!(matches!(check_running(3033, Err(DevError::Verify("no curl".to_string()))), Err(DevError::Verify(m))
        if m == "no curl"));
    assert!(serve(false, 1, 2, "/log").is_err());
    assert_eq!(serve(true, 1, 2, "/log").unwrap(), "nidhogg server started (PID 1, port 2)");
    assert_eq!(resolve_port(Some("99"), Some(7)), 99);
    assert_eq!(resolve_port(None, Some(7)), 7);
    assert_eq!(poll_for_ready(0, true), ReadyStep::Ready);
    assert_eq!(poll_for_ready(1000, false), ReadyStep::GiveUp);
}

#[test]
fn commands_take_their_way() {
    let ingest = NidhoggCommand::Ingest;
    let api = NidhoggCommand::Api { query: None };
    assert_eq!(run_command(Project::Nidhogg, false, MeasureMode::Run, &ingest).unwrap(), Route::IngestRun);
    assert_eq!(run_command(Project::Nidhogg, false, MeasureMode::Run, &api).unwrap(), Route::Api);
    let alloc = MeasureMode::Alloc { runs: 1 };
    assert_eq!(run_command(Project::Nidhogg, false, alloc, &ingest).unwrap(), Route::IngestHotpath);
    let Err(DevError::Config(m)) = run_command(Project::Nidhogg, false, alloc, &api) else {
        panic!("expected DevError::Config");
    };
    assert_eq!(m, "command 'api' does not support hotpath/alloc profiling");
    assert!(run_command(Project::Nidhogg, true, alloc, &ingest).is_err());
    assert!(run_command(Project::Piners, false, alloc, &ingest).is_err());
    assert!(check_tool("perf").is_ok());
    assert!(check_tool("gdb").is_err());
    assert_eq!(ingest_run_outcome(0, 5).unwrap(), "elapsed=5ms");
    assert!(matches!(ingest_run_outcome(3, 5), Err(DevError::ExitCode(3))));
    assert_eq!(tiles_features(&["a".to_string()], true), vec!["a", "linux-io-uring"]);
    assert_eq!(sample_line(&[(3, 0, 0), (7, 1, 1)]).unwrap(), "z3-z7, 2 tile coordinates sampled from PMTiles directory");
    assert!(sample_line(&[]).is_err());
    assert!(is_ready_line("Server LISTENING on 3033"));
    assert!(!is_ready_line("starting"));
}

#[test]
fn every_tile_is_asked_for_in_every_pass() {
    let tiles = [(1, 0, 0), (2, 1, 1)];
    let mut asked = vec![];
    let mut lines = vec![];
    while let Some(tile) = next_request(asked.len(), &tiles) {
        asked.push(tile);
        lines.extend(pass_line(asked.len(), tiles.len()));
    }
    assert_eq!(asked.len(), 12);
    assert_eq!(asked.iter().filter(|t| **t == (2, 1, 1)).count(), 6);
    assert_eq!(lines.len(), 6);
    assert_eq!(lines[0], "warmup done, running 5 iterations \u{d7} 2 tiles = 10 requests");
    assert_eq!(lines[5], "iteration 5/5");
    assert_eq!(next_request(0, &[]), None);
}

#[test]
fn a_server_is_ready_when_it_says_so() {
    let mut seen = String::new();
    assert!(matches!(after_line(&mut seen, Some("loading\n")), StartStep::Wait));
    assert!(matches!(after_line(&mut seen, Some("Listening on 1\n")), StartStep::Ready));
    let StartStep::Failed(DevError::Config(m)) = after_line(&mut seen, None) else {
        panic!("expected a failure");
    };
    assert_eq!(m, "nidhogg server did not print ready signal within 30s\nserver stderr:\nloading\n");
    assert!(matches!(not_ready_error(""), DevError::Config(m) if m.ends_with("(no stderr output)")));
    assert_eq!(server_args("/d", "/t"), vec!["serve", "--data-dir", "/d", "--tiles", "/t"]);
    let Ok(result) = run_lifecycle("n", false, None, b"tiles=3\n", 9) else {
        panic!("expected a result");
    };
    assert_eq!((result.elapsed_ms, result.kv.len()), (9, 1));
    assert!(run_lifecycle("n", false, Some(1), b"bad", 9).is_err());
}

#[test]
fn measurements_of_a_server_are_configured() {
    let config = tiles_config(80, "t.pmtiles", Some("h"), Double::of_u64(2), 7, 3);
    let keys: Vec<&str> = config.metadata.iter().map(|p| p.key.as_str()).collect();
    assert_eq!(
        keys,
        vec!["meta.port", "meta.tiles", "meta.tiles_mb", "meta.tile_coords", "meta.iterations", "meta.tiles_hash"]
    );
    assert_eq!(config.runs, 3);
    let config = api_config("q", 80, 2, None, None);
    assert_eq!((config.command.as_str(), config.metadata.len()), ("bench api", 2));
    let queries = build_api_queries("1,2,3,4").unwrap();
    assert_eq!(choose_queries(&queries, None).len(), 4);
    assert_eq!(choose_queries(&queries, Some("buildings")).len(), 1);
    assert_eq!(choose_queries(&queries, Some("x")).len(), 0);
    assert_eq!(run_curl_timed(done(true, Some(0), b"\n0.0425", b"")).unwrap(), 42);
    assert!(run_curl_timed(done(false, Some(1), b"", b"")).is_err());
    assert!(timed_args("u", "b").contains(&"\n%{time_total}".to_string()));
    assert!(sized_args("u", "b").contains(&"\n%{size_download}".to_string()));
    assert_eq!(profile_config("perf", "a.pbf", Double::of_u64(1)).mode.as_deref(), Some("perf"));
    assert_eq!(hotpath_lines(&NidhoggCommand::Ingest, false), vec!["=== nidhogg nid-ingest hotpath ==="]);
    assert_eq!(
        list_output_files(&[("b".to_string(), 1_048_576), ("a".to_string(), 0)]),
        vec!["output files:", "  a: 0.0 MB", "  b: 1.0 MB"]
    );
    assert_eq!(NidhoggCommand::Api { query: None }.scratch_output_dir(), None);
    assert!(path_str(&FilePath { bytes: vec![0xff] }, "?").is_err());
    assert_eq!(path_str(&FilePath::from_text("/a"), "/a").unwrap(), "/a");
}

#[test]
fn a_box_turned_twice_is_itself() {
    let given = "12.4,55.6,,a b";
    let turned = bbox_to_api(given).unwrap();
    assert_eq!(turned, "[55.6,12.4,a b,]");
    let again = bbox_to_api(&turned[1..turned.len() - 1]).unwrap();
    assert_eq!(again, format!("[{given}]"));
    assert!(bbox_to_api("").is_err());
    assert!(bbox_to_api(",,,").is_ok());
}

#[test]
fn encoding_works_piece_by_piece_and_can_be_undone() {
    let (a, b) = ("K\u{f8}b/1", "%41 ~\u{4E16}");
    let both = url_encode(&format!("{a}{b}"));
    assert_eq!(both, format!("{}{}", url_encode(a), url_encode(b)));
    let (mut bytes, coded, mut i) = (Vec::new(), both.as_bytes(), 0);
    while i < coded.len() {
        if coded[i] == b'%' {
            bytes.push(u8::from_str_radix(&both[i + 1..i + 3], 16).unwrap());
            i += 3;
        } else {
            bytes.push(coded[i]);
            i += 1;
        }
    }
    assert_eq!(String::from_utf8(bytes).unwrap(), format!("{a}{b}"));
    assert_ne!(url_encode("A"), url_encode("%41"));
}
