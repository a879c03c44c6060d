use codecrafters_shell::{eval_redirect, Redirect};

#[test]
fn redirection() {
    assert_eq!(eval_redirect("1>"), Redirect::StdOut(false));
    assert_eq!(eval_redirect("1>>"), Redirect::StdOut(true));
    assert_eq!(eval_redirect("2>"), Redirect::StdErr(false));
    assert_eq!(eval_redirect(">"), Redirect::StdOut(false));
    assert_eq!(eval_redirect(">>"), Redirect::StdOut(true));
    assert_eq!(eval_redirect("2>>"), Redirect::StdErr(true));
}
