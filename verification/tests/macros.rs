use deboa::macros::{delete, expand_tokens, expand_tokens_with, fetch, get, patch, post, put, query, stream, submit, MacroName, QueryArgs, Token, ValueVerdicts};

#[test]
fn test_get_expansion() {
    let out = get("url => \"https://jsonplaceholder.typicode.com/posts\", client => &client,").unwrap();
    assert_eq!(
        out,
        "deboa::HttpClient::execute(& client, deboa::request::DeboaRequest::get(\"https://jsonplaceholder.typicode.com/posts\")?.build()?,).await?"
    );
}

#[test]
fn test_get_missing_url() {
    assert_eq!(get("client => &client"), Err("Missing required field: 'url'".to_string()));
}

#[test]
fn test_get_missing_client() {
    assert_eq!(
        get("url => \"https://jsonplaceholder.typicode.com/posts\","),
        Err("Missing required field: 'client'".to_string())
    );
}

#[test]
fn test_get_with_response_body() {
    let out = get("url => \"u\", client => c, res_body_ty => JsonBody, res_ty => Vec<Post>").unwrap();
    assert!(out.starts_with("deboa::HttpClient::execute(c, deboa::request::DeboaRequest::get(\"u\")?.build()?,).await?"));
    assert!(out.ends_with(".body_as::<JsonBody, Vec < Post >>(JsonBody).await?"));
}

#[test]
fn test_get_missing_res_ty() {
    assert_eq!(
        get("url => \"u\", client => c, res_body_ty => JsonBody"),
        Err("Missing required field: 'res_ty'".to_string())
    );
}

#[test]
fn test_query_pass() {
    let out = query("url => \"https://jsonplaceholder.typicode.com/posts\", client => &client,").unwrap();
    assert!(out.contains("deboa::request::DeboaRequest::query(\"https://jsonplaceholder.typicode.com/posts\")?"));
}

#[test]
fn test_post_with_body() {
    let out = post("url => \"u\", client => c, req_body_ty => JsonBody, data => post").unwrap();
    assert_eq!(
        out,
        "deboa::HttpClient::execute(c, deboa::request::DeboaRequest::post(\"u\")?.body_as(JsonBody, post)?.build()?,).await?"
    );
}

#[test]
fn test_post_missing_data() {
    assert_eq!(post("url => \"u\", client => c, req_body_ty => JsonBody"), Err("Missing required field: 'data'".to_string()));
}

#[test]
fn test_put_and_patch_verbs() {
    assert!(put("url => \"u\", client => c").unwrap().contains("DeboaRequest::put(\"u\")?"));
    assert!(patch("url => \"u\", client => c").unwrap().contains("DeboaRequest::patch(\"u\")?"));
}

#[test]
fn test_delete_rejects_response_keys() {
    assert_eq!(delete("url => \"u\", client => c, res_ty => String"), Err("Unknown parameter: res_ty".to_string()));
}

#[test]
fn test_fetch_and_stream() {
    assert!(fetch("url => \"u\", client => c").unwrap().contains("DeboaRequest::get(\"u\")?"));
    assert!(stream("url => \"u\", client => c").unwrap().ends_with(".stream()"));
}

#[test]
fn test_submit() {
    let out = submit("method => http::Method::GET, url => \"u\", client => &client,").unwrap();
    assert_eq!(
        out,
        "deboa::HttpClient::execute(& client, deboa::request::DeboaRequest::at(\"u\", http :: Method :: GET)?.build()?,).await?"
    );
    assert_eq!(submit("url => \"u\", client => c"), Err("Missing required field: 'method'".to_string()));
}

#[test]
fn test_duplicate_and_malformed_keys() {
    assert_eq!(get("url => \"a\", url => \"b\""), Err("duplicate key: url".to_string()));
    assert_eq!(get("client => a, client => b"), Err("Duplicate 'client' parameter".to_string()));
    assert_eq!(get("url = \"a\""), Err("expected `=>`".to_string()));
    assert_eq!(get("\"a\" => b"), Err("expected identifier".to_string()));
    assert_eq!(get("url => (\"a\""), Err("cannot parse macro input".to_string()));
}

#[test]
fn test_expand_tokens() {
    let tokens = vec![
        Token::Ident("url".to_string()),
        Token::Punct('=', true),
        Token::Punct('>', false),
        Token::Literal("\"u\"".to_string()),
        Token::Punct(',', false),
        Token::Ident("client".to_string()),
        Token::Punct('=', true),
        Token::Punct('>', false),
        Token::Ident("c".to_string()),
    ];
    assert_eq!(
        expand_tokens(MacroName::Delete, &tokens),
        Ok("deboa::HttpClient::execute(c, deboa::request::DeboaRequest::delete(\"u\")?.build()?,).await?".to_string())
    );
}

#[test]
fn test_query_args_parse() {
    let tokens = vec![
        Token::Ident("url".to_string()),
        Token::Punct('=', true),
        Token::Punct('>', false),
        Token::Literal("\"u\"".to_string()),
        Token::Punct(',', false),
        Token::Ident("data".to_string()),
        Token::Punct('=', true),
        Token::Punct('>', false),
        Token::Ident("x".to_string()),
    ];
    let args = QueryArgs::parse(&tokens).unwrap();
    assert_eq!(args.url, Some(vec![Token::Literal("\"u\"".to_string())]));
    assert_eq!(args.data, Some(vec![Token::Ident("x".to_string())]));
    assert!(args.client.is_none());
    let bad = vec![Token::Ident("method".to_string()), Token::Punct('=', true), Token::Punct('>', false), Token::Ident("x".to_string())];
    assert_eq!(QueryArgs::parse(&bad).err(), Some("Unknown parameter: method".to_string()));
}

#[test]
fn test_value_is_a_whole_expression() {
    let out = get("url => |x, y| x, client => c").unwrap();
    assert!(out.contains("DeboaRequest::get(| x , y | x)?"));
    let out = get("url => f::<a, b>(), client => c").unwrap();
    assert!(out.contains("DeboaRequest::get(f ::< a , b > ( ))?"));
    let out = get("url => \"u\" client => (c, d).0").unwrap();
    assert!(out.starts_with("deboa::HttpClient::execute(( c , d ) . 0, "));
}

#[test]
fn test_keywords_are_not_keys() {
    assert_eq!(get("type => x"), Err("expected identifier, found keyword `type`".to_string()));
    assert_eq!(
        post("url => \"u\", client => c, req_body_ty => self, data => d"),
        Err("expected identifier, found keyword `self`".to_string())
    );
}

#[test]
fn test_missing_value() {
    assert_eq!(get("url => , client => c"), Err("expected an expression".to_string()));
    assert_eq!(get("url => \"u\", client => c, res_body_ty => J, res_ty => ,"), Err("expected a type".to_string()));
}

#[test]
fn test_group_tokens() {
    let tokens = vec![
        Token::Ident("url".to_string()),
        Token::Punct('=', true),
        Token::Punct('>', false),
        Token::Ident("f".to_string()),
        Token::Open('('),
        Token::Literal("1".to_string()),
        Token::Punct(',', false),
        Token::Literal("2".to_string()),
        Token::Close(')'),
        Token::Punct(',', false),
        Token::Ident("client".to_string()),
        Token::Punct('=', true),
        Token::Punct('>', false),
        Token::Ident("c".to_string()),
    ];
    assert_eq!(
        expand_tokens(MacroName::Get, &tokens),
        Ok("deboa::HttpClient::execute(c, deboa::request::DeboaRequest::get(f ( 1 , 2 ))?.build()?,).await?".to_string())
    );
}

fn url_client_tokens() -> Vec<Token> {
    vec![
        Token::Ident("url".to_string()),
        Token::Punct('=', true),
        Token::Punct('>', false),
        Token::Literal("\"u\"".to_string()),
        Token::Punct(',', false),
        Token::Ident("client".to_string()),
        Token::Punct('=', true),
        Token::Punct('>', false),
        Token::Ident("c".to_string()),
    ]
}

fn table(n: usize, accepted: &[(usize, usize)]) -> Vec<Vec<bool>> {
    let mut t = vec![vec![false; n + 1]; n];
    for &(v, e) in accepted {
        t[v][e] = true;
    }
    t
}

#[test]
fn test_expand_tokens_with_given_verdicts() {
    let tokens = url_client_tokens();
    let n = tokens.len();
    let accepting = ValueVerdicts { expr: table(n, &[(3, 4), (8, 9)]), ty: table(n, &[]) };
    assert_eq!(
        expand_tokens_with(MacroName::Delete, &tokens, &accepting),
        Ok("deboa::HttpClient::execute(c, deboa::request::DeboaRequest::delete(\"u\")?.build()?,).await?".to_string())
    );
    let refusing = ValueVerdicts { expr: table(n, &[]), ty: table(n, &[]) };
    assert_eq!(
        expand_tokens_with(MacroName::Delete, &tokens, &refusing),
        Err("expected an expression".to_string())
    );
    let longer = ValueVerdicts { expr: table(n, &[(3, 4), (3, 9), (8, 9)]), ty: table(n, &[]) };
    assert_eq!(
        expand_tokens_with(MacroName::Delete, &tokens, &longer),
        Err("Missing required field: 'client'".to_string())
    );
}

#[test]
fn test_query_args_parse_with_given_verdicts() {
    let tokens = url_client_tokens();
    let n = tokens.len();
    let vd = ValueVerdicts { expr: table(n, &[(3, 4), (8, 9)]), ty: table(n, &[]) };
    let args = QueryArgs::parse_with(&tokens, &vd).unwrap();
    assert_eq!(args.url, Some(vec![Token::Literal("\"u\"".to_string())]));
    assert_eq!(args.client, Some(vec![Token::Ident("c".to_string())]));
    let none = ValueVerdicts { expr: table(n, &[]), ty: table(n, &[]) };
    assert_eq!(QueryArgs::parse_with(&tokens, &none).err(), Some("expected an expression".to_string()));
}
