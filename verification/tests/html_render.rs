use lightdown::html::{RenderError, render, render_document};
use lightdown::ir::{VmError, compile_module, execute_document, parse};

#[test]
fn renders_documents_via_the_bytecode_path() {
    let document = execute_document(
        &compile_module(
            &parse(r#"(doc {:meta {:version "0.1.0"}} (p (text "Rendered through bytecode.")))"#)
                .expect("module parses"),
        )
        .expect("module compiles"),
    )
    .expect("program executes");

    let html = render_document(&document).expect("document renders");

    assert_eq!(html, "<p>Rendered through bytecode.</p>");
}

#[test]
fn escapes_text_and_attributes() {
    let html = render(
        r#"(doc {:meta {:version "0.1.0"}} (p (a {:href "/?a=1&b=\"2\""} (text "<tag> & more"))))"#,
    )
    .expect("document renders");
    assert_eq!(
        html,
        "<p><a href=\"/?a=1&amp;b=&quot;2&quot;\">&lt;tag&gt; &amp; more</a></p>"
    );
}

#[test]
fn renders_every_block_kind() {
    let html = render(
        r#"(doc {:meta {:version "0.1.0"}}
  (h2 (text "T"))
  (ol (li (p (em (text "a")) (strong (text "b")))))
  (blockquote (p (code "x") (br)))
  (codeblock {:lang "rust"} "fn main() {}")
  (hr)
  (p (img {:src "/a.png" :alt "A"}) (img {:src "/b.png"})))"#,
    )
    .expect("document renders");
    assert_eq!(
        html,
        "<h2>T</h2><ol><li><p><em>a</em><strong>b</strong></p></li></ol><blockquote><p><code>x</code><br></p></blockquote><pre><code class=\"language-rust\">fn main() {}</code></pre><hr><p><img src=\"/a.png\" alt=\"A\"><img src=\"/b.png\"></p>"
    );
}

#[test]
fn groups_direct_table_rows_into_head_and_body() {
    let html = render(
        r#"(doc {:meta {:version "0.1.0"}}
  (table (tr (th (text "H"))) (tr (td (text "D1"))) (tr (td (text "D2")))))"#,
    )
    .expect("document renders");
    assert_eq!(
        html,
        "<table><thead><tr><th>H</th></tr></thead><tbody><tr><td>D1</td></tr><tr><td>D2</td></tr></tbody></table>"
    );
}

#[test]
fn reports_each_stage_of_failure() {
    assert!(matches!(render("(doc"), Err(RenderError::Parse(_))));
    assert!(matches!(
        render(r#"(doc {:meta {:version "0.1.0"}} (nope))"#),
        Err(RenderError::Vm(VmError::UnknownBuiltin { .. }))
    ));
    assert!(matches!(
        render(r#"(doc {:meta {:version "0.1.0"}} (hr (text "x")))"#),
        Err(RenderError::Vm(VmError::BuiltinArityMismatch { builtin: "hr", expected: "0", actual: 1, .. }))
    ));
}
