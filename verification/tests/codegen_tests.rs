use geerpc::codegen::{
    module_name, parse_type, resolve_options, trim, FieldType, GenOptions, MethodDefinition,
    MethodPlan, OptionValue, ServiceDefinition, ServicePlan,
};
use heck::ToSnakeCase;
use proc_macro2::{Ident, Punct, Spacing, Span, TokenStream, TokenTree};

fn render(ty: &FieldType) -> TokenStream {
    match ty {
        FieldType::Named(name) => TokenStream::from(TokenTree::Ident(Ident::new(name, Span::call_site()))),
        FieldType::List(inner) => wrap("Vec", inner),
        FieldType::Optional(inner) => wrap("Option", inner),
    }
}

fn wrap(outer: &str, inner: &FieldType) -> TokenStream {
    let mut tokens = TokenStream::new();
    tokens.extend([
        TokenTree::Ident(Ident::new(outer, Span::call_site())),
        TokenTree::Punct(Punct::new('<', Spacing::Alone)),
    ]);
    tokens.extend(render(inner));
    tokens.extend([TokenTree::Punct(Punct::new('>', Spacing::Alone))]);
    tokens
}

fn fields(pairs: &[(&str, &str)]) -> Vec<(String, String)> {
    pairs.iter().map(|(n, t)| (n.to_string(), t.to_string())).collect()
}

#[test]
fn test_snake_case_conversion() {
    assert_eq!("Ping".to_snake_case(), "ping");
    assert_eq!("GetUser".to_snake_case(), "get_user");
    assert_eq!("HTTPRequest".to_snake_case(), "http_request");
}

#[test]
fn test_parse_type() {
    let tokens = render(&parse_type("String"));
    assert_eq!(tokens.to_string(), "String");

    let tokens = render(&parse_type("Vec<String>"));
    assert_eq!(tokens.to_string(), "Vec < String >");

    let tokens = render(&parse_type("Option<u32>"));
    assert_eq!(tokens.to_string(), "Option < u32 >");
}

#[test]
fn parse_type_reads_nested_types_and_drops_whitespace() {
    let ty = parse_type("  Vec< Option<u64> > ");
    match ty {
        FieldType::List(inner) => match *inner {
            FieldType::Optional(inner) => match *inner {
                FieldType::Named(name) => assert_eq!(name, "u64"),
                other => panic!("unexpected {:?}", other),
            },
            other => panic!("unexpected {:?}", other),
        },
        other => panic!("unexpected {:?}", other),
    }
    assert_eq!(render(&parse_type("Vec<Vec<u8>>")).to_string(), "Vec < Vec < u8 > >");
}

#[test]
fn parse_type_keeps_other_generics_as_names() {
    match parse_type("HashMap<String, u32>") {
        FieldType::Named(name) => assert_eq!(name, "HashMap<String, u32>"),
        other => panic!("unexpected {:?}", other),
    }
    match parse_type("Vec<") {
        FieldType::Named(name) => assert_eq!(name, "Vec<"),
        other => panic!("unexpected {:?}", other),
    }
}

#[test]
fn trim_removes_surrounding_whitespace_only() {
    assert_eq!(trim("  a b \t\n"), "a b");
    assert_eq!(trim("   "), "");
    assert_eq!(trim("x"), "x");
    assert_eq!(trim("\u{3000}u32\u{a0}"), "u32");
    assert_eq!(trim("\u{200b}u32"), "\u{200b}u32");
}

#[test]
fn options_default_to_client_and_server() {
    let o = resolve_options(&Vec::new());
    assert!(o.client);
    assert!(o.server);
    assert!(o.module.is_none());
}

#[test]
fn options_override_and_later_ones_win() {
    let given = vec![
        ("client".to_string(), OptionValue::Bool(true)),
        ("server".to_string(), OptionValue::Bool(false)),
        ("module".to_string(), OptionValue::Str("first".to_string())),
        ("module".to_string(), OptionValue::Str("my_client".to_string())),
        ("client".to_string(), OptionValue::Str("ignored".to_string())),
        ("unknown".to_string(), OptionValue::Bool(false)),
        ("server".to_string(), OptionValue::Other),
    ];
    let o = resolve_options(&given);
    assert!(o.client);
    assert!(!o.server);
    assert_eq!(o.module.as_deref(), Some("my_client"));
}

#[test]
fn module_name_defaults_to_snake_case_service() {
    assert_eq!(module_name(None, "Ping"), "ping");
    assert_eq!(module_name(None, "UserAccount"), "user_account");
    assert_eq!(module_name(Some("my_custom_ping".to_string()), "Ping"), "my_custom_ping");
}

#[test]
fn method_plan_names() {
    let def = MethodDefinition {
        name: "GetUser".to_string(),
        request: fields(&[("id", "u64")]),
        response: fields(&[("name", "String"), ("tags", "Vec<String>")]),
    };
    let plan = MethodPlan::plan(&def);
    assert_eq!(plan.method_name, "GetUser");
    assert_eq!(plan.fn_name, "get_user");
    assert_eq!(plan.const_name, "METHOD_GET_USER");
    assert_eq!(plan.request_type, "GetUserRequest");
    assert_eq!(plan.response_type, "GetUserResponse");
    assert_eq!(plan.failure_message, "Failed to get_user");
    assert_eq!(plan.request_fields.len(), 1);
    assert_eq!(plan.request_fields[0].name, "id");
    assert_eq!(render(&plan.request_fields[0].ty).to_string(), "u64");
    assert_eq!(plan.response_fields.len(), 2);
    assert_eq!(render(&plan.response_fields[1].ty).to_string(), "Vec < String >");
}

#[test]
fn service_plan_names() {
    let def = ServiceDefinition {
        service: "Ping".to_string(),
        methods: vec![MethodDefinition {
            name: "Ping".to_string(),
            request: fields(&[("message", "String")]),
            response: fields(&[("message", "String")]),
        }],
    };
    let options = GenOptions { client: true, server: false, module: None };
    let plan = ServicePlan::plan(&def, &options);
    assert_eq!(plan.service_name, "Ping");
    assert_eq!(plan.module_name, "ping");
    assert_eq!(plan.client_name, "PingClient");
    assert_eq!(plan.service_trait_name, "PingService");
    assert_eq!(plan.server_name, "PingServer");
    assert!(plan.with_client);
    assert!(!plan.with_server);
    assert_eq!(plan.methods.len(), 1);
    assert_eq!(plan.methods[0].fn_name, "ping");
    assert_eq!(plan.methods[0].const_name, "METHOD_PING");
    assert_eq!(plan.methods[0].failure_message, "Failed to ping");

    let options = GenOptions { client: false, server: true, module: Some("ping_server_only".to_string()) };
    let plan = ServicePlan::plan(&def, &options);
    assert_eq!(plan.module_name, "ping_server_only");
    assert!(!plan.with_client);
    assert!(plan.with_server);
}
