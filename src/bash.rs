use vstd::prelude::*;

use crate::text::{digits_of, digits_text};

verus! {

/// Decimal text of an integer.
pub open spec fn int_text(x: int) -> Seq<char> {
    if x < 0 {
        "-"@ + digits_of((-x) as nat)
    } else {
        digits_of(x as nat)
    }
}

/// What a finished shell command gives: its standard output on success;
/// otherwise its standard error, or with `full_error` the exit code (1
/// when it has none), standard error and standard output together.
pub open spec fn shell_result_text(
    success: bool,
    code: Option<i32>,
    stdout: Seq<char>,
    stderr: Seq<char>,
    full_error: bool,
) -> Result<Seq<char>, Seq<char>> {
    if success {
        Ok(stdout)
    } else if full_error {
        let c = match code {
            Some(c) => c as int,
            None => 1,
        };
        Err("Status Code:"@ + int_text(c) + "\nError:"@ + stderr + "\nOutput:"@ + stdout)
    } else {
        Err(stderr)
    }
}

/// Turns a finished shell command into a step result.
pub fn shell_result(
    success: bool,
    code: Option<i32>,
    stdout: String,
    stderr: String,
    full_error: bool,
) -> (r: Result<String, String>)
    ensures
        match (r, shell_result_text(success, code, stdout@, stderr@, full_error)) {
            (Ok(a), Ok(b)) => a@ == b,
            (Err(a), Err(b)) => a@ == b,
            _ => false,
        },
{
    if success {
        Ok(stdout)
    } else if full_error {
        let c: i32 = match code {
            Some(c) => c,
            None => 1,
        };
        let mut e = String::from_str("Status Code:");
        if c < 0 {
            e.append("-");
            e.append(digits_text((-(c as i64)) as u128).as_str());
        } else {
            e.append(digits_text(c as u128).as_str());
        }
        e.append("\nError:");
        e.append(stderr.as_str());
        e.append("\nOutput:");
        e.append(stdout.as_str());
        proof {
            reveal_strlit("-");
        }
        assert(e@ =~= "Status Code:"@ + int_text(c as int) + "\nError:"@ + stderr@ + "\nOutput:"@
            + stdout@);
        Err(e)
    } else {
        Err(stderr)
    }
}

} // verus!
