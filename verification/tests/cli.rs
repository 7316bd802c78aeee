use http_server::server::{parse_args, Args, Server};

#[test]
fn parse_args_should_match_requested_params() {
    let test_cases = vec![
        (
            vec![
                "foo".to_string(),
                "--directory".to_string(),
                "/tmp/path".to_string(),
            ],
            Args {
                directory: Some("/tmp/path".to_string()),
            },
        ),
        (
            vec!["foo".to_string(), "--directory".to_string()],
            Args { directory: None },
        ),
    ];

    for (test_case, expected) in test_cases {
        assert_eq!(parse_args(test_case), expected)
    }
}

#[test]
fn parse_args_without_flag_leaves_directory_unset() {
    let args = parse_args(vec!["foo".to_string(), "bar".to_string()]);
    assert_eq!(args, Args { directory: None });
}

#[test]
fn parse_args_takes_first_flag() {
    let args = parse_args(vec![
        "srv".to_string(),
        "--directory".to_string(),
        "/a".to_string(),
        "--directory".to_string(),
        "/b".to_string(),
    ]);
    assert_eq!(
        args,
        Args {
            directory: Some("/a".to_string())
        }
    );
}

#[test]
fn server_new_keeps_addr_and_conf() {
    let conf = Args {
        directory: Some("/srv/files".to_string()),
    };
    let server = Server::new("127.0.0.1:4221".to_string(), conf);
    assert_eq!(server.addr, "127.0.0.1:4221");
    assert_eq!(
        server.conf,
        Args {
            directory: Some("/srv/files".to_string())
        }
    );
}
