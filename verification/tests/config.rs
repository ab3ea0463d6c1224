use milstian_internet_framework::Config;

#[test]
fn from_env_args() {
    // This is expected to work
    let response = Config::from_env_args(
        vec![
            String::from("ignore this"),
            String::from("127.0.0.1"),
            String::from("7878"),
            String::from("4"),
            String::from("index.htm"),
            String::from("./html/"),
            String::from("404.htm"),
            String::from("1024"),
        ],
        Ok(String::from("/srv/html")),
    );
    assert!(response.is_ok());

    // Expected four arguments but received three
    let response = Config::from_env_args(
        vec![
            String::from("127.0.0.1"),
            String::from("7878"),
            String::from("4"),
        ],
        Ok(String::from("/srv/html")),
    );
    assert!(response.is_err());

    // Expected integer but got string
    let response = Config::from_env_args(
        vec![
            String::from("ignore this"),
            String::from("127.0.0.1"),
            String::from("7878"),
            String::from("4"),
            String::from("index.htm"),
            String::from("./htmls/"),
            String::from("404.htm"),
        ],
        Err(String::from("Could not find canonical path from: \"./htmls/\"")),
    );
    assert!(response.is_err());
}

fn arguments(limit: &str, port: &str, tcp: &str) -> Vec<String> {
    vec![
        String::from("program"),
        String::from("127.0.0.1"),
        String::from(port),
        String::from(limit),
        String::from("index.htm"),
        String::from("./html/"),
        String::from("404.htm"),
        String::from(tcp),
    ]
}

fn root() -> Result<String, String> {
    Ok(String::from("/srv/html"))
}

#[test]
fn the_arguments_become_the_settings() {
    let config = Config::from_env_args(arguments("4", "7878", "1024"), root()).unwrap();
    assert_eq!(config.server_host, "127.0.0.1");
    assert_eq!(config.server_port, 7878);
    assert_eq!(config.server_limit, 4);
    assert_eq!(config.filesystem_directory_index, "index.htm");
    assert_eq!(config.filesystem_root, "/srv/html");
    assert_eq!(config.file_not_found_file, "404.htm");
    assert_eq!(config.tcp_limit, 1024);
    assert!(config.feedback_error_file.is_none());
    assert!(config.feedback_info_file.is_none());
}

#[test]
fn each_error_of_the_arguments_has_its_text() {
    assert_eq!(
        Config::from_env_args(vec![String::from("program")], root()).unwrap_err(),
        "Not enough shell arguments!"
    );
    assert_eq!(
        Config::from_env_args(arguments("four", "7878", "1024"), root()).unwrap_err(),
        "Failed to parse server limit!"
    );
    assert_eq!(
        Config::from_env_args(arguments("4", "port", "1024"), root()).unwrap_err(),
        "Failed to parse server port!"
    );
    assert_eq!(
        Config::from_env_args(arguments("4", "4294967296", "1024"), root()).unwrap_err(),
        "Failed to parse server port!"
    );
    assert_eq!(
        Config::from_env_args(arguments("4", "7878", "1024"), Err(String::from("no such root")))
            .unwrap_err(),
        "no such root"
    );
    assert_eq!(
        Config::from_env_args(arguments("4", "7878", "-1"), root()).unwrap_err(),
        "Failed to parse TCP limit!"
    );
}

#[test]
fn the_first_error_in_the_order_of_the_arguments_is_given() {
    let no_root: Result<String, String> = Err(String::from("no such root"));
    assert_eq!(
        Config::from_env_args(arguments("x", "y", "z"), no_root.clone()).unwrap_err(),
        "Failed to parse server limit!"
    );
    assert_eq!(
        Config::from_env_args(arguments("4", "y", "z"), no_root.clone()).unwrap_err(),
        "Failed to parse server port!"
    );
    assert_eq!(
        Config::from_env_args(arguments("4", "7878", "z"), no_root.clone()).unwrap_err(),
        "no such root"
    );
    assert_eq!(
        Config::from_env_args(vec![String::from("program")], no_root).unwrap_err(),
        "Not enough shell arguments!"
    );
}

#[test]
fn arguments_after_the_eighth_are_not_read() {
    let mut args = arguments("4", "4294967295", "0");
    args.push(String::from("more"));
    let config = Config::from_env_args(args, root()).unwrap();
    assert_eq!(config.server_port, 4294967295);
    assert_eq!(config.tcp_limit, 0);
}

#[test]
fn the_root_is_asked_for_after_the_arguments_before_it() {
    assert_eq!(
        Config::root_argument(&arguments("4", "7878", "1024")),
        Some(String::from("./html/"))
    );
    assert_eq!(
        Config::root_argument(&arguments("4", "7878", "many")),
        Some(String::from("./html/"))
    );
    assert_eq!(Config::root_argument(&vec![String::from("program")]), None);
    assert_eq!(Config::root_argument(&arguments("four", "7878", "1024")), None);
    assert_eq!(Config::root_argument(&arguments("4", "port", "1024")), None);
    assert_eq!(
        Config::from_env_args(arguments("four", "7878", "1024"), Err(String::new())).unwrap_err(),
        "Failed to parse server limit!"
    );
    assert_eq!(
        Config::from_env_args(arguments("4", "port", "1024"), Err(String::from("no such root")))
            .unwrap_err(),
        "Failed to parse server port!"
    );
    assert_eq!(
        Config::from_env_args(arguments("4", "7878", "many"), Err(String::from("no such root")))
            .unwrap_err(),
        "no such root"
    );
}
