//! An HTTP/1.x message engine: the parser that reads a request from bytes,
//! the response and its bytes, and the rules by which an ordered chain of
//! responders answers a request, among them the one that serves files and
//! tells a client when its copy is still good.

use vstd::prelude::*;
use crate::decimal::{number_up_to, parse_number};
use crate::text::chars_of;

pub mod application_layer;
pub mod decimal;
pub mod lexical;
pub mod mime;
pub mod request;
pub mod response;
pub mod text;
pub mod text_map;
pub mod transport_layer;
pub mod transport_protocol;

verus! {

/// The settings of an application.
#[derive(Clone, Debug)]
pub struct Config {
    pub feedback_error_file: Option<String>,
    pub feedback_info_file: Option<String>,
    pub file_not_found_file: String,
    pub filesystem_directory_index: String,
    pub filesystem_root: String,
    pub server_limit: usize,
    pub server_host: String,
    pub server_port: u32,
    pub tcp_limit: usize,
}

/// What settings hold.
pub ghost struct Arguments {
    pub feedback_error_file: Option<Seq<char>>,
    pub feedback_info_file: Option<Seq<char>>,
    pub server_host: Seq<char>,
    pub server_port: nat,
    pub server_limit: nat,
    pub filesystem_directory_index: Seq<char>,
    pub filesystem_root: Seq<char>,
    pub file_not_found_file: Seq<char>,
    pub tcp_limit: nat,
}

/// Why arguments make no settings.
pub ghost enum ArgumentsError {
    TooFew,
    ServerLimit,
    ServerPort,
    /// The root of the files has no canonical form, and why.
    Root(Seq<char>),
    TcpLimit,
}

/// The text of each error.
pub open spec fn error_text(error: ArgumentsError) -> Seq<char> {
    match error {
        ArgumentsError::TooFew => "Not enough shell arguments!"@,
        ArgumentsError::ServerLimit => "Failed to parse server limit!"@,
        ArgumentsError::ServerPort => "Failed to parse server port!"@,
        ArgumentsError::Root(why) => why,
        ArgumentsError::TcpLimit => "Failed to parse TCP limit!"@,
    }
}

/// The settings that the arguments of a program make, with the canonical
/// form of the root of the files as the file system gave it. The first
/// argument is the name of the program; then come host, port, the number of
/// workers, the index file of a directory, the root of the files, the file
/// that stands for a missing one, and the limit of a request in bytes. The
/// first that is wrong, in this order, is the error: too few arguments, the
/// number of workers, the port, the root, the limit.
pub open spec fn arguments_of(args: Seq<Seq<char>>, root: Result<Seq<char>, Seq<char>>) -> Result<
    Arguments,
    ArgumentsError,
> {
    if args.len() < 8 {
        Err(ArgumentsError::TooFew)
    } else if number_up_to(args[3], usize::MAX as nat) is None {
        Err(ArgumentsError::ServerLimit)
    } else if number_up_to(args[2], u32::MAX as nat) is None {
        Err(ArgumentsError::ServerPort)
    } else if root is Err {
        Err(ArgumentsError::Root(root->Err_0))
    } else if number_up_to(args[7], usize::MAX as nat) is None {
        Err(ArgumentsError::TcpLimit)
    } else {
        Ok(
            Arguments {
                feedback_error_file: None,
                feedback_info_file: None,
                server_host: args[1],
                server_port: number_up_to(args[2], u32::MAX as nat)->0,
                server_limit: number_up_to(args[3], usize::MAX as nat)->0,
                filesystem_directory_index: args[4],
                filesystem_root: root->Ok_0,
                file_not_found_file: args[6],
                tcp_limit: number_up_to(args[7], usize::MAX as nat)->0,
            },
        )
    }
}

/// The root that the arguments name, where the settings need its canonical
/// form: there are arguments enough, and the number of workers and the port
/// are numbers. Where they are not, the arguments make no settings whatever
/// the file system holds, and it is not asked.
pub open spec fn root_asked(args: Seq<Seq<char>>) -> Option<Seq<char>> {
    if args.len() >= 8 && number_up_to(args[3], usize::MAX as nat) is Some && number_up_to(
        args[2],
        u32::MAX as nat,
    ) is Some {
        Some(args[5])
    } else {
        None
    }
}

/// Where no root is asked for, the arguments make no settings, and why
/// does not depend on the root.
pub proof fn unasked_root_is_unread(
    args: Seq<Seq<char>>,
    root: Result<Seq<char>, Seq<char>>,
    other: Result<Seq<char>, Seq<char>>,
)
    requires
        root_asked(args) is None,
    ensures
        arguments_of(args, root) is Err,
        arguments_of(args, root) == arguments_of(args, other),
        !(arguments_of(args, root)->Err_0 is Root),
{
}

/// Where a root is asked for and has no canonical form, that is why the
/// arguments make no settings.
pub proof fn asked_root_is_needed(args: Seq<Seq<char>>, why: Seq<char>)
    requires
        root_asked(args) is Some,
    ensures
        arguments_of(args, Err(why)) == Err::<Arguments, ArgumentsError>(ArgumentsError::Root(why)),
{
}

/// The texts of a sequence of arguments.
pub open spec fn argument_texts(args: Seq<String>) -> Seq<Seq<char>> {
    Seq::new(args.len(), |i: int| args[i]@)
}

/// The text of an optional text.
pub open spec fn optional_text(text: Option<String>) -> Option<Seq<char>> {
    match text {
        Some(t) => Some(t@),
        None => None,
    }
}

/// The text of a root, or of the reason why there is none.
pub open spec fn root_text(root: Result<String, String>) -> Result<Seq<char>, Seq<char>> {
    match root {
        Ok(path) => Ok(path@),
        Err(why) => Err(why@),
    }
}

impl Config {
    /// What the settings hold.
    pub open spec fn arguments(&self) -> Arguments {
        Arguments {
            feedback_error_file: optional_text(self.feedback_error_file),
            feedback_info_file: optional_text(self.feedback_info_file),
            server_host: self.server_host@,
            server_port: self.server_port as nat,
            server_limit: self.server_limit as nat,
            filesystem_directory_index: self.filesystem_directory_index@,
            filesystem_root: self.filesystem_root@,
            file_not_found_file: self.file_not_found_file@,
            tcp_limit: self.tcp_limit as nat,
        }
    }

    /// The root that the arguments name, where the settings need its
    /// canonical form.
    pub fn root_argument(args: &Vec<String>) -> (r: Option<String>)
        ensures
            optional_text(r) == root_asked(argument_texts(args@)),
    {
        if args.len() < 8 {
            return None;
        }
        proof {
            let texts = argument_texts(args@);
            assert(texts[2] == args@[2]@);
            assert(texts[3] == args@[3]@);
            assert(texts[5] == args@[5]@);
        }
        if parse_number(&chars_of(args[3].as_str()), usize::MAX as u64).is_none() {
            return None;
        }
        if parse_number(&chars_of(args[2].as_str()), u32::MAX as u64).is_none() {
            return None;
        }
        Some(args[5].clone())
    }

    /// The settings that the arguments of a program make. `canonical_root`
    /// is the canonical form of the root that the arguments name, as the
    /// file system gave it, or why it has none; it is the root of the
    /// settings. No file is written to for feedback.
    pub fn from_env_args(args: Vec<String>, canonical_root: Result<String, String>) -> (r: Result<
        Config,
        String,
    >)
        ensures
            match r {
                Ok(config) => arguments_of(argument_texts(args@), root_text(canonical_root)) == Ok::<
                    Arguments,
                    ArgumentsError,
                >(config.arguments()),
                Err(text) => arguments_of(argument_texts(args@), root_text(canonical_root)) is Err
                    && text@ == error_text(
                    arguments_of(argument_texts(args@), root_text(canonical_root))->Err_0,
                ),
            },
    {
        if args.len() < 8 {
            return Err("Not enough shell arguments!".to_string());
        }
        proof {
            let texts = argument_texts(args@);
            assert(texts[1] == args@[1]@);
            assert(texts[2] == args@[2]@);
            assert(texts[3] == args@[3]@);
            assert(texts[4] == args@[4]@);
            assert(texts[6] == args@[6]@);
            assert(texts[7] == args@[7]@);
        }
        let server_limit: usize = match parse_number(&chars_of(args[3].as_str()), usize::MAX as u64) {
            Some(n) => n as usize,
            None => {
                return Err("Failed to parse server limit!".to_string());
            },
        };
        let server_port: u32 = match parse_number(&chars_of(args[2].as_str()), u32::MAX as u64) {
            Some(n) => n as u32,
            None => {
                return Err("Failed to parse server port!".to_string());
            },
        };
        let filesystem_root = match canonical_root {
            Ok(path) => path,
            Err(why) => {
                return Err(why);
            },
        };
        let tcp_limit: usize = match parse_number(&chars_of(args[7].as_str()), usize::MAX as u64) {
            Some(n) => n as usize,
            None => {
                return Err("Failed to parse TCP limit!".to_string());
            },
        };
        Ok(
            Config {
                feedback_error_file: None,
                feedback_info_file: None,
                filesystem_directory_index: args[4].clone(),
                file_not_found_file: args[6].clone(),
                filesystem_root,
                server_limit,
                server_host: args[1].clone(),
                server_port,
                tcp_limit,
            },
        )
    }
}

/// An application: its settings.
#[derive(Clone, Debug)]
pub struct Application {
    config: Config,
}

impl Application {
    /// The settings of the application.
    pub closed spec fn config(&self) -> Config {
        self.config
    }

    /// An application with these settings.
    pub fn new(config: Config) -> (application: Application)
        ensures
            application.config() == config,
    {
        Application { config }
    }

    /// The settings of the application.
    pub fn get_config(&self) -> (config: &Config)
        ensures
            *config == self.config(),
    {
        &self.config
    }
}

} // verus!
