use vstd::prelude::*;
use vstd::string::*;

verus! {

/// `s` ends with `suffix`.
pub open spec fn ends_with(s: Seq<char>, suffix: Seq<char>) -> bool {
    s.len() >= suffix.len() && s.subrange(s.len() - suffix.len(), s.len() as int) == suffix
}

/// Whether the text `s` ends with `.txt`.
fn has_txt_extension(s: &str) -> (r: bool)
    ensures
        r == ends_with(s@, ".txt"@),
{
    proof {
        reveal_strlit(".txt");
    }
    let n = s.unicode_len();
    if n < 4 {
        return false;
    }
    let c0 = s.get_char(n - 4);
    let c1 = s.get_char(n - 3);
    let c2 = s.get_char(n - 2);
    let c3 = s.get_char(n - 1);
    assert(s@.subrange(n - 4, n as int) =~= seq![c0, c1, c2, c3]);
    assert(".txt"@ =~= seq!['.', 't', 'x', 't']);
    c0 == '.' && c1 == 't' && c2 == 'x' && c3 == 't'
}

/// Checks the command line `args`, the program's name first: it must name one
/// board file, whose name ends with `.txt`.
pub fn parse_args(args: &Vec<String>) -> (r: Result<(), String>)
    ensures
        args.len() < 2 ==> (r matches Err(m) && m@ == "ERROR: Not enough arguments"@),
        args.len() >= 3 ==> (r matches Err(m) && m@ == "ERROR: Too many arguments passed"@),
        args.len() == 2 && ends_with(args@[1]@, ".txt"@) ==> r is Ok,
        args.len() == 2 && !ends_with(args@[1]@, ".txt"@) ==> (r matches Err(m) && m@
            == "ERROR: Arguments should be entered in format: -- <file.txt>"@),
{
    if args.len() < 2 {
        return Err("ERROR: Not enough arguments".to_owned());
    }
    if args.len() >= 3 {
        return Err("ERROR: Too many arguments passed".to_owned());
    }
    if !has_txt_extension(args[1].as_str()) {
        return Err("ERROR: Arguments should be entered in format: -- <file.txt>".to_owned());
    }
    Ok(())
}

} // verus!
