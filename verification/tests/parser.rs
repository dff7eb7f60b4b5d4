use norma::compiler::error::Diagnostics;
use norma::compiler::expansor::expand;
use norma::compiler::lexer::generate_tokens;
use norma::compiler::parser::parse;

fn messages(diagnostics: &Diagnostics) -> Vec<String> {
    let mut errors = diagnostics.iter();
    let mut result = Vec::new();
    while let Some(error) = errors.next() {
        result.push(error.text());
    }
    result
}

#[test]
fn code_starting_with_unexpected_token_type() {
    let code = "a";
    let mut diagnostics = Diagnostics::new();

    let tokens = generate_tokens(code, &mut diagnostics);
    let _result = parse(tokens, &mut diagnostics);
    let errors =
        messages(&diagnostics);

    assert_eq!(
        errors,
        &[
            "Token inesperado encontrado, esperava-se um \"main\", \"operation\" ou \"test\", na linha 1 e coluna 1",
            "Main não foi declarada neste programa"
        ]
    )
}

#[test]
fn do_keyword_calls_builtin_test() {
    let code = "main {
    1: do zero X goto 2
    2: do inc X goto 0
}";

    let mut diagnostics = Diagnostics::new();

    let tokens = generate_tokens(code, &mut diagnostics);
    let _result = parse(tokens, &mut diagnostics);
    let errors =
        messages(&diagnostics);

    assert_eq!(
        errors,
        &["Token inesperado encontrado, esperava-se um \"inc\", \"dec\" ou \"<identificador>\", da linha 2 e coluna 11, até a coluna 14"],
    );
}

#[test]
fn if_keyword_calls_builtin_operation_inc() {
    let code = "main {
    1: if inc X then goto 2 else goto 0
    2: do inc X goto 0
}";

    let mut diagnostics = Diagnostics::new();

    let tokens = generate_tokens(code, &mut diagnostics);
    let _result = parse(tokens, &mut diagnostics);
    let errors =
        messages(&diagnostics);

    assert_eq!(
        errors,
        &["Token inesperado encontrado, esperava-se um \"zero\" ou \"<identificador>\", da linha 2 e coluna 11, até a coluna 13"]
    );
}

#[test]
fn if_keyword_calls_builtin_operation_dec() {
    let code = "main {
    1: if dec X then goto 2 else goto 0
    2: do dec X goto 0
}";

    let mut diagnostics = Diagnostics::new();

    let tokens = generate_tokens(code, &mut diagnostics);
    let _result = parse(tokens, &mut diagnostics);
    let errors =
        messages(&diagnostics);

    assert_eq!(
        errors,
        &["Token inesperado encontrado, esperava-se um \"zero\" ou \"<identificador>\", da linha 2 e coluna 11, até a coluna 13"]
    );
}

#[test]
fn builtin_operation_without_arg() {
    let code = "main {
    1: do dec goto 0
}";

    let mut diagnostics = Diagnostics::new();

    let tokens = generate_tokens(code, &mut diagnostics);
    let _result = parse(tokens, &mut diagnostics);
    let errors =
        messages(&diagnostics);

    assert_eq!(
        errors,
        &["Token inesperado encontrado, esperava-se um \"<identificador>\", da linha 2 e coluna 15, até a coluna 18"]
    )
}

#[test]
fn if_calls_builtin_operation_without_arg() {
    let code = "main {
    1: if dec then goto 2 else goto 0
}";

    let mut diagnostics = Diagnostics::new();

    let tokens = generate_tokens(code, &mut diagnostics);
    let _result = parse(tokens, &mut diagnostics);
    let errors =
        messages(&diagnostics);

    assert_eq!(
        errors,
        &[
            "Token inesperado encontrado, esperava-se um \"zero\" ou \"<identificador>\", da linha 2 e coluna 11, até a coluna 13",
            "Token inesperado encontrado, esperava-se um \"<identificador>\", da linha 2 e coluna 15, até a coluna 18",
        ]
    )
}

#[test]
fn normal_label_as_true() {
    let code = "main {
    true: do inc X goto 0
}";
    let mut diagnostics = Diagnostics::new();

    let tokens = generate_tokens(code, &mut diagnostics);
    let _result = parse(tokens, &mut diagnostics);
    let errors =
        messages(&diagnostics);

    assert_eq!(
        errors,
        &["Nome de label não pode ser \"true\" nem \"false\", da linha 2 e coluna 5, até a coluna 8"]
    )
}

#[test]
fn normal_label_as_false() {
    let code = "main {
    false: do inc X goto 0
}";
    let mut diagnostics = Diagnostics::new();

    let tokens = generate_tokens(code, &mut diagnostics);
    let _result = parse(tokens, &mut diagnostics);
    let errors =
        messages(&diagnostics);

    assert_eq!(
        errors,
        &["Nome de label não pode ser \"true\" nem \"false\", da linha 2 e coluna 5, até a coluna 9"]
    )
}

#[test]
fn expand_recursive_macros() {
    let code = "test foo(A) {
    1: do bar(A) goto false
}

operation bar(B) {
    1: do baz(B) goto 0
}

operation baz(C) {
    1: if foo(C) then goto 0 else goto 2
    2: do simple (C) goto 3
    3: do bar (C) goto 0
}

operation simple(D) {
    1: do inc (D) goto 0
}

main {
    1: if foo(X) then goto 0 else goto 0
}";

    let mut diagnostics = Diagnostics::new();
    let tokens = generate_tokens(code, &mut diagnostics);
    let ast = parse(tokens, &mut diagnostics).unwrap();
    expand(&ast, &mut diagnostics);
    let errors =
        messages(&diagnostics);

    assert_eq!(
        errors,
        &[
            "Recursão detectada entre as macros: \"foo\", \"bar\" e \"baz\", da linha 10 e coluna 11, até a coluna 13",
            "Recursão detectada entre as macros: \"bar\" e \"baz\", da linha 12 e coluna 11, até a coluna 13"
        ]
    );
}
