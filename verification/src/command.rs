//! The values exchanged with the surrounding application: the outcome of a
//! tool invocation, the session state, and the pure helpers that build
//! argument lists, file names and decisions for it.

use vstd::prelude::*;
use vstd::string::*;
use crate::analyzer::analyze_spec;
use crate::chars::{contains_seq, contains_str, is_ws, is_ws_exec, str_to_chars};
use crate::fields::TrimListResponse;
use crate::patterns::strs_view;

verus! {

/// Outcome of one run of the external tool: whether it exited cleanly, and
/// its combined console output (or a failure message).
pub struct CommandResult {
    pub success: bool,
    pub msg: String,
}

/// The session state of the surrounding application: the loaded metadata
/// file, the directory of the last save, and the cached tool path.
pub struct AppState {
    pub loaded_file: String,
    pub default_path: String,
    pub metafier_path: Option<String>,
}

impl AppState {
    /// A fresh session: nothing loaded, no save directory, no cached path.
    pub fn new() -> (r: AppState)
        ensures
            r.loaded_file@.len() == 0,
            r.default_path@.len() == 0,
            r.metafier_path is None,
    {
        AppState { loaded_file: String::new(), default_path: String::new(), metafier_path: None }
    }
}

/// A file chosen in a picker dialog: its bare name and its full path.
pub struct FileDialogResult {
    pub file_name: String,
    pub file_path: String,
}

/// The place where the tool is installed by default on each platform.
pub fn get_default_metafier_path(windows: bool) -> (r: String)
    ensures
        windows ==> r@
            == "C:\\Program Files\\Dolby\\Dolby_Vision_Professional_Tools_v5.5.0\\metafier.exe"@,
        !windows ==> r@ == "/usr/local/bin/dolby_vision_professional_tools/metafier"@,
{
    if windows {
        String::from_str(
            "C:\\Program Files\\Dolby\\Dolby_Vision_Professional_Tools_v5.5.0\\metafier.exe",
        )
    } else {
        String::from_str("/usr/local/bin/dolby_vision_professional_tools/metafier")
    }
}

/// The combined console output of a run: standard output, then standard
/// error.
pub fn combine_output(stdout: &str, stderr: &str) -> (r: String)
    ensures
        r@ == stdout@ + stderr@,
{
    let mut s = String::from_str(stdout);
    s.append(stderr);
    s
}

/// The argument list of a validation run: modes `0` and `1` validate the
/// loaded file, mode `2` validates with lift, and any other mode is
/// rejected. An empty loaded file is rejected first.
pub fn validate_args(mode: u8, loaded_file: &str) -> (r: Result<Vec<String>, String>)
    ensures
        match r {
            Ok(args) => loaded_file@.len() > 0 && mode <= 2 && strs_view(args@) == (if mode <= 1 {
                seq!["--validate"@, loaded_file@]
            } else {
                seq!["--validate"@, "--with-lift"@, loaded_file@]
            }),
            Err(e) => (loaded_file@.len() == 0 || mode > 2) && e@ == (if loaded_file@.len() == 0 {
                "No file loaded"@
            } else {
                "Invalid validation mode"@
            }),
        },
{
    if loaded_file.unicode_len() == 0 {
        return Err(String::from_str("No file loaded"));
    }
    if mode <= 1 {
        let mut args: Vec<String> = Vec::new();
        args.push(String::from_str("--validate"));
        args.push(String::from_str(loaded_file));
        proof {
            assert(strs_view(args@) =~= seq!["--validate"@, loaded_file@]);
        }
        Ok(args)
    } else if mode == 2 {
        let mut args: Vec<String> = Vec::new();
        args.push(String::from_str("--validate"));
        args.push(String::from_str("--with-lift"));
        args.push(String::from_str(loaded_file));
        proof {
            assert(strs_view(args@) =~= seq!["--validate"@, "--with-lift"@, loaded_file@]);
        }
        Ok(args)
    } else {
        Err(String::from_str("Invalid validation mode"))
    }
}

/// The analysis step of a trim-list request: a failed run hands its output
/// back as the error, a clean run is analyzed.
pub fn trim_list_from_result(result: &CommandResult) -> (r: Result<TrimListResponse, String>)
    ensures
        match r {
            Ok(resp) => result.success && resp@ == analyze_spec(result.msg@),
            Err(e) => !result.success && e@ == result.msg@,
        },
{
    if result.success {
        Ok(crate::analyzer::analyze_logs(result.msg.as_str()))
    } else {
        Err(result.msg.clone())
    }
}

/// Whether a `--version` probe shows a working tool: a clean exit whose
/// output names the Metafier application.
pub fn is_metafier_working(result: &CommandResult) -> (b: bool)
    ensures
        b == (result.success && contains_seq(result.msg@, "Metafier application"@)),
{
    proof {
        reveal_strlit("Metafier application");
    }
    if result.success {
        let v = str_to_chars(result.msg.as_str());
        contains_str(&v, "Metafier application")
    } else {
        false
    }
}

/// The suggested name for an edited copy of the loaded file.
pub fn default_save_name(base: &str) -> (r: String)
    ensures
        r@ == base@ + "_edited.xml"@,
{
    let mut s = String::from_str(base);
    s.append("_edited.xml");
    s
}

/// The suggested name for an exported report: the base name, a report tag,
/// and the date.
pub fn report_file_name(base: &str, date: &str) -> (r: String)
    ensures
        r@ == base@ + "_Mtfr_rprt_"@ + date@ + ".txt"@,
{
    let mut s = String::from_str(base);
    s.append("_Mtfr_rprt_");
    s.append(date);
    s.append(".txt");
    s
}

/// End of the maximal run of non-whitespace characters starting at `i`.
pub open spec fn token_end(s: Seq<char>, i: int) -> int
    decreases s.len() - i,
{
    if i < 0 || i >= s.len() {
        i
    } else if !is_ws(s[i]) {
        token_end(s, i + 1)
    } else {
        i
    }
}

pub proof fn lemma_token_end(s: Seq<char>, i: int)
    requires
        0 <= i <= s.len(),
    ensures
        i <= token_end(s, i) <= s.len(),
    decreases s.len() - i,
{
    if i < s.len() && !is_ws(s[i]) {
        lemma_token_end(s, i + 1);
    }
}

/// The whitespace-separated tokens of `s` at or after `i`, in order.
pub open spec fn ws_tokens(s: Seq<char>, i: int) -> Seq<Seq<char>>
    decreases s.len() - i,
    via ws_tokens_dec
{
    if i < 0 || i >= s.len() {
        Seq::<Seq<char>>::empty()
    } else if is_ws(s[i]) {
        ws_tokens(s, i + 1)
    } else {
        seq![s.subrange(i, token_end(s, i))] + ws_tokens(s, token_end(s, i))
    }
}

#[via_fn]
proof fn ws_tokens_dec(s: Seq<char>, i: int) {
    if 0 <= i < s.len() && !is_ws(s[i]) {
        assert(token_end(s, i) == token_end(s, i + 1));
        lemma_token_end(s, i + 1);
    }
}

/// Splits a parameter string into its whitespace-separated tokens.
pub fn split_params(params: &str) -> (r: Vec<String>)
    ensures
        strs_view(r@) == ws_tokens(params@, 0),
{
    let v = str_to_chars(params);
    let n = v.len();
    let mut out: Vec<String> = Vec::new();
    let mut i: usize = 0;
    while i < n
        invariant
            v@ == params@,
            i <= n,
            n == v@.len(),
            ws_tokens(v@, 0) == strs_view(out@) + ws_tokens(v@, i as int),
        decreases n - i,
    {
        if is_ws_exec(v[i]) {
            i += 1;
        } else {
            let mut j = i;
            while j < n && !is_ws_exec(v[j])
                invariant
                    i <= j <= n,
                    n == v@.len(),
                    token_end(v@, i as int) == token_end(v@, j as int),
                decreases n - j,
            {
                j += 1;
            }
            proof {
                assert(j as int == token_end(v@, i as int));
                lemma_token_end(v@, i as int);
            }
            let tok = String::from_str(params.substring_char(i, j));
            proof {
                assert(ws_tokens(v@, i as int) == seq![v@.subrange(i as int, j as int)]
                    + ws_tokens(v@, j as int));
                assert(strs_view(out@.push(tok)) =~= strs_view(out@) + seq![tok@]);
                assert(strs_view(out@) + (seq![tok@] + ws_tokens(v@, j as int)) =~= (strs_view(
                    out@,
                ) + seq![tok@]) + ws_tokens(v@, j as int));
            }
            out.push(tok);
            proof {
                assert(j > i || !is_ws(v@[i as int]));
                assert(token_end(v@, i as int) == token_end(v@, i + 1));
            }
            i = if j > i {
                j
            } else {
                i + 1
            };
        }
    }
    proof {
        assert(ws_tokens(v@, i as int) =~= Seq::<Seq<char>>::empty());
        assert(strs_view(out@) =~= strs_view(out@) + ws_tokens(v@, i as int));
    }
    out
}

/// The argument list of a save run: the loaded file, the output switch and
/// path, then the whitespace-separated extra parameters.
pub fn build_save_args(loaded_file: &str, output_path: &str, params: &str) -> (r: Vec<String>)
    ensures
        strs_view(r@) == seq![loaded_file@, "--output"@, output_path@] + ws_tokens(params@, 0),
{
    let mut args: Vec<String> = Vec::new();
    args.push(String::from_str(loaded_file));
    args.push(String::from_str("--output"));
    args.push(String::from_str(output_path));
    let extra = split_params(params);
    let mut k: usize = 0;
    while k < extra.len()
        invariant
            k <= extra@.len(),
            strs_view(extra@) == ws_tokens(params@, 0),
            strs_view(args@) =~= seq![loaded_file@, "--output"@, output_path@] + strs_view(
                extra@,
            ).take(k as int),
        decreases extra@.len() - k,
    {
        let ghost a0 = args@;
        args.push(extra[k].clone());
        proof {
            assert(strs_view(args@) =~= strs_view(a0).push(extra@[k as int]@));
            assert(strs_view(extra@).take(k + 1) =~= strs_view(extra@).take(k as int).push(
                extra@[k as int]@,
            ));
            assert(strs_view(args@) =~= seq![loaded_file@, "--output"@, output_path@]
                + strs_view(extra@).take(k + 1));
        }
        k += 1;
    }
    proof {
        assert(strs_view(extra@).take(extra@.len() as int) =~= strs_view(extra@));
    }
    args
}

} // verus!
