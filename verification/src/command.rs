//! The programs that check and run the backends.

use crate::policy;
use crate::policy::{OcrBackend, OcrPolicy, PolicyModel};
use crate::scripts::{
    PADDLEOCR_CHECK_SCRIPT, PADDLEOCR_RUN_SCRIPT, RAPIDOCR_CHECK_SCRIPT, RAPIDOCR_RUN_SCRIPT,
};
use crate::text;
use vstd::prelude::*;
use vstd::string::*;

verus! {

/// An argument of a program.
#[derive(Debug, PartialEq, Eq)]
pub enum CommandArg {
    /// These words.
    Words(String),
    /// The path of the frame.
    FramePath,
    /// The path of the output, without its extension.
    OutputBase,
}

/// A `CommandArg`, words taken as their characters.
pub enum ArgModel {
    Words(Seq<char>),
    FramePath,
    OutputBase,
}

impl View for CommandArg {
    type V = ArgModel;

    open spec fn view(&self) -> ArgModel {
        match *self {
            CommandArg::Words(words) => ArgModel::Words(words@),
            CommandArg::FramePath => ArgModel::FramePath,
            CommandArg::OutputBase => ArgModel::OutputBase,
        }
    }
}

/// A program with its arguments, and how long it may run, in milliseconds.
#[derive(Debug, PartialEq, Eq)]
pub struct BackendCommand {
    pub program: String,
    pub args: Vec<CommandArg>,
    pub timeout_ms: Option<u64>,
}

/// A `BackendCommand`, its contents taken by their views.
#[verifier::ext_equal]
pub struct CommandModel {
    pub program: Seq<char>,
    pub args: Seq<ArgModel>,
    pub timeout_ms: Option<u64>,
}

/// The views of some arguments.
pub open spec fn args_view(args: Seq<CommandArg>) -> Seq<ArgModel> {
    args.map_values(|arg: CommandArg| arg@)
}

impl View for BackendCommand {
    type V = CommandModel;

    open spec fn view(&self) -> CommandModel {
        CommandModel {
            program: self.program@,
            args: args_view(self.args@),
            timeout_ms: self.timeout_ms,
        }
    }
}

/// The program that tells whether a backend is ready.
pub open spec fn check_command_of(policy: PolicyModel, backend: OcrBackend) -> CommandModel {
    match backend {
        OcrBackend::RapidOcr => CommandModel {
            program: policy.rapidocr_python,
            args: seq![
                ArgModel::Words("-c"@),
                ArgModel::Words(RAPIDOCR_CHECK_SCRIPT@),
                ArgModel::Words(policy.rapidocr_language),
            ],
            timeout_ms: Some(policy.timeout_ms),
        },
        OcrBackend::PaddleOcr => CommandModel {
            program: policy.paddleocr_python,
            args: seq![ArgModel::Words("-c"@), ArgModel::Words(PADDLEOCR_CHECK_SCRIPT@)],
            timeout_ms: Some(policy.timeout_ms),
        },
        OcrBackend::Tesseract => CommandModel {
            program: policy.tesseract_executable,
            args: seq![ArgModel::Words("--version"@)],
            timeout_ms: None,
        },
    }
}

/// The program that recognises the texts in a frame.
pub open spec fn run_command_of(policy: PolicyModel, backend: OcrBackend) -> CommandModel {
    match backend {
        OcrBackend::RapidOcr => CommandModel {
            program: policy.rapidocr_python,
            args: seq![
                ArgModel::Words("-c"@),
                ArgModel::Words(RAPIDOCR_RUN_SCRIPT@),
                ArgModel::Words(policy.rapidocr_language),
                ArgModel::FramePath,
            ],
            timeout_ms: Some(policy.timeout_ms),
        },
        OcrBackend::PaddleOcr => CommandModel {
            program: policy.paddleocr_python,
            args: seq![
                ArgModel::Words("-c"@),
                ArgModel::Words(PADDLEOCR_RUN_SCRIPT@),
                ArgModel::Words(policy.paddleocr_language),
                ArgModel::Words(policy::or_default(policy.paddleocr_device, ""@)),
                ArgModel::Words(policy::or_default(policy.paddleocr_engine, ""@)),
                ArgModel::Words(policy::or_default(policy.paddleocr_version, ""@)),
                ArgModel::FramePath,
            ],
            timeout_ms: Some(policy.timeout_ms),
        },
        OcrBackend::Tesseract => CommandModel {
            program: policy.tesseract_executable,
            args: seq![
                ArgModel::FramePath,
                ArgModel::OutputBase,
                ArgModel::Words("-l"@),
                ArgModel::Words(policy.language),
                ArgModel::Words("--psm"@),
                ArgModel::Words(policy.page_segmentation_mode),
                ArgModel::Words("tsv"@),
            ],
            timeout_ms: Some(policy.timeout_ms),
        },
    }
}

fn words(s: &str) -> (arg: CommandArg)
    ensures
        arg@ == ArgModel::Words(s@),
{
    CommandArg::Words(s.to_owned())
}

fn optional_words(s: &Option<String>) -> (arg: CommandArg)
    ensures
        arg@ == ArgModel::Words(policy::or_default(text::option_view(*s), ""@)),
{
    match s {
        Some(s) => CommandArg::Words(s.clone()),
        None => CommandArg::Words("".to_owned()),
    }
}

impl OcrPolicy {
    /// The program that tells whether a backend is ready.
    pub fn check_command(&self, backend: OcrBackend) -> (command: BackendCommand)
        ensures
            command@ == check_command_of(self@, backend),
    {
        let mut args: Vec<CommandArg> = Vec::new();
        match backend {
            OcrBackend::RapidOcr => {
                args.push(words("-c"));
                args.push(words(RAPIDOCR_CHECK_SCRIPT));
                args.push(words(self.rapidocr_language.as_str()));
                assert(args_view(args@) =~= check_command_of(self@, backend).args);
                BackendCommand {
                    program: self.rapidocr_python.clone(),
                    args,
                    timeout_ms: Some(self.timeout_ms),
                }
            },
            OcrBackend::PaddleOcr => {
                args.push(words("-c"));
                args.push(words(PADDLEOCR_CHECK_SCRIPT));
                assert(args_view(args@) =~= check_command_of(self@, backend).args);
                BackendCommand {
                    program: self.paddleocr_python.clone(),
                    args,
                    timeout_ms: Some(self.timeout_ms),
                }
            },
            OcrBackend::Tesseract => {
                args.push(words("--version"));
                assert(args_view(args@) =~= check_command_of(self@, backend).args);
                BackendCommand {
                    program: self.tesseract_executable.clone(),
                    args,
                    timeout_ms: None,
                }
            },
        }
    }

    /// The program that recognises the texts in a frame.
    pub fn run_command(&self, backend: OcrBackend) -> (command: BackendCommand)
        ensures
            command@ == run_command_of(self@, backend),
    {
        let mut args: Vec<CommandArg> = Vec::new();
        let program = match backend {
            OcrBackend::RapidOcr => {
                args.push(words("-c"));
                args.push(words(RAPIDOCR_RUN_SCRIPT));
                args.push(words(self.rapidocr_language.as_str()));
                args.push(CommandArg::FramePath);
                self.rapidocr_python.clone()
            },
            OcrBackend::PaddleOcr => {
                args.push(words("-c"));
                args.push(words(PADDLEOCR_RUN_SCRIPT));
                args.push(words(self.paddleocr_language.as_str()));
                args.push(optional_words(&self.paddleocr_device));
                args.push(optional_words(&self.paddleocr_engine));
                args.push(optional_words(&self.paddleocr_version));
                args.push(CommandArg::FramePath);
                self.paddleocr_python.clone()
            },
            OcrBackend::Tesseract => {
                args.push(CommandArg::FramePath);
                args.push(CommandArg::OutputBase);
                args.push(words("-l"));
                args.push(words(self.language.as_str()));
                args.push(words("--psm"));
                args.push(words(self.page_segmentation_mode.as_str()));
                args.push(words("tsv"));
                self.tesseract_executable.clone()
            },
        };
        assert(args_view(args@) =~= run_command_of(self@, backend).args);
        BackendCommand { program, args, timeout_ms: Some(self.timeout_ms) }
    }
}

/// Every run is given the frame exactly once, and a time limit.
pub proof fn law_run_is_given_frame_and_limit(policy: PolicyModel, backend: OcrBackend)
    ensures
        run_command_of(policy, backend).timeout_ms == Some(policy.timeout_ms),
        exists|i: int|
            0 <= i < run_command_of(policy, backend).args.len() && run_command_of(
                policy,
                backend,
            ).args[i] == ArgModel::FramePath && forall|j: int|
                0 <= j < run_command_of(policy, backend).args.len() && j != i
                    ==> #[trigger] run_command_of(policy, backend).args[j] != ArgModel::FramePath,
{
    let args = run_command_of(policy, backend).args;
    match backend {
        OcrBackend::RapidOcr => {
            assert(args[3] == ArgModel::FramePath);
        },
        OcrBackend::PaddleOcr => {
            assert(args[6] == ArgModel::FramePath);
        },
        OcrBackend::Tesseract => {
            assert(args[0] == ArgModel::FramePath);
        },
    }
}

/// A run of PaddleOCR is given, after the script, what the script reads in that order: the language,
/// the device, the engine, the version of the models, each empty where it is not set, and the frame.
/// A setting of the policy that changes changes the argument in its place and no other.
pub proof fn law_paddleocr_settings_keep_their_places(policy: PolicyModel, other: PolicyModel)
    ensures
        ({
            let args = run_command_of(policy, OcrBackend::PaddleOcr).args;
            let others = run_command_of(other, OcrBackend::PaddleOcr).args;
            &&& args.len() == 7 && others.len() == 7
            &&& args[0] == ArgModel::Words("-c"@)
            &&& args[1] == ArgModel::Words(PADDLEOCR_RUN_SCRIPT@)
            &&& args[2] == ArgModel::Words(policy.paddleocr_language)
            &&& is_optional_words(args[3], policy.paddleocr_device)
            &&& is_optional_words(args[4], policy.paddleocr_engine)
            &&& is_optional_words(args[5], policy.paddleocr_version)
            &&& args[6] == ArgModel::FramePath
            &&& args[0] == others[0] && args[1] == others[1] && args[6] == others[6]
            &&& policy.paddleocr_language == other.paddleocr_language <==> args[2] == others[2]
            &&& policy.paddleocr_device == other.paddleocr_device ==> args[3] == others[3]
            &&& policy.paddleocr_engine == other.paddleocr_engine ==> args[4] == others[4]
            &&& policy.paddleocr_version == other.paddleocr_version ==> args[5] == others[5]
        }),
{
    reveal_strlit("");
    assert(""@ =~= Seq::empty());
}

/// Whether an argument is some words where there are any, and empty where there are none.
pub open spec fn is_optional_words(arg: ArgModel, setting: Option<Seq<char>>) -> bool {
    match setting {
        Some(setting) => arg == ArgModel::Words(setting),
        None => arg matches ArgModel::Words(words) && words.len() == 0,
    }
}

/// A run of RapidOCR is given, after the script, the language and the frame, and its check the
/// language alone.
pub proof fn law_rapidocr_settings_keep_their_places(policy: PolicyModel)
    ensures
        ({
            let args = run_command_of(policy, OcrBackend::RapidOcr).args;
            &&& args.len() == 4
            &&& args[0] == ArgModel::Words("-c"@)
            &&& args[1] == ArgModel::Words(RAPIDOCR_RUN_SCRIPT@)
            &&& args[2] == ArgModel::Words(policy.rapidocr_language)
            &&& args[3] == ArgModel::FramePath
        }),
        ({
            let args = check_command_of(policy, OcrBackend::RapidOcr).args;
            &&& args.len() == 3
            &&& args[0] == ArgModel::Words("-c"@)
            &&& args[1] == ArgModel::Words(RAPIDOCR_CHECK_SCRIPT@)
            &&& args[2] == ArgModel::Words(policy.rapidocr_language)
        }),
        ({
            let args = check_command_of(policy, OcrBackend::PaddleOcr).args;
            &&& args.len() == 2
            &&& args[0] == ArgModel::Words("-c"@)
            &&& args[1] == ArgModel::Words(PADDLEOCR_CHECK_SCRIPT@)
        }),
{
}

/// A run of Tesseract is given the frame and where to write, then, each behind its flag, the language
/// and the page segmentation mode, and at last the format.
pub proof fn law_tesseract_settings_follow_their_flags(policy: PolicyModel)
    ensures
        ({
            let args = run_command_of(policy, OcrBackend::Tesseract).args;
            &&& args.len() == 7
            &&& args[0] == ArgModel::FramePath
            &&& args[1] == ArgModel::OutputBase
            &&& args[2] == ArgModel::Words("-l"@) && args[3] == ArgModel::Words(policy.language)
            &&& args[4] == ArgModel::Words("--psm"@) && args[5] == ArgModel::Words(
                policy.page_segmentation_mode,
            )
            &&& args[6] == ArgModel::Words("tsv"@)
        }),
        check_command_of(policy, OcrBackend::Tesseract).args.len() == 1,
        check_command_of(policy, OcrBackend::Tesseract).args[0] == ArgModel::Words("--version"@),
{
}

/// A backend is checked and run with the program that the policy names for it. Checks of the Python
/// backends have the time limit of the policy; asking Tesseract for its version has none.
pub proof fn law_backends_have_their_own_programs(policy: PolicyModel)
    ensures
        run_command_of(policy, OcrBackend::RapidOcr).program == policy.rapidocr_python,
        check_command_of(policy, OcrBackend::RapidOcr).program == policy.rapidocr_python,
        run_command_of(policy, OcrBackend::PaddleOcr).program == policy.paddleocr_python,
        check_command_of(policy, OcrBackend::PaddleOcr).program == policy.paddleocr_python,
        run_command_of(policy, OcrBackend::Tesseract).program == policy.tesseract_executable,
        check_command_of(policy, OcrBackend::Tesseract).program == policy.tesseract_executable,
        check_command_of(policy, OcrBackend::RapidOcr).timeout_ms == Some(policy.timeout_ms),
        check_command_of(policy, OcrBackend::PaddleOcr).timeout_ms == Some(policy.timeout_ms),
        check_command_of(policy, OcrBackend::Tesseract).timeout_ms is None,
{
}

} // verus!
