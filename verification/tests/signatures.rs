use food_openapi_rs::{
    extract_argument, extract_query_type, extract_request_type, extract_response_type,
    is_unit_type, wrapped_type, Argument, PathSegment, ResponseWrapper, Signature, TypeShape,
};

fn plain(ident: &str) -> TypeShape {
    TypeShape::Path {
        last_segment: Some(PathSegment { ident: ident.to_string(), first_type_argument: None }),
    }
}

fn generic(ident: &str, argument: TypeShape) -> TypeShape {
    TypeShape::Path {
        last_segment: Some(PathSegment {
            ident: ident.to_string(),
            first_type_argument: Some(Box::new(argument)),
        }),
    }
}

fn unit() -> TypeShape {
    TypeShape::Tuple { elements: 0 }
}

fn empty_path() -> TypeShape {
    TypeShape::Path { last_segment: None }
}

fn takes(inputs: Vec<TypeShape>) -> Signature {
    Signature { inputs: inputs.into_iter().map(Argument::Typed).collect(), output: None }
}

fn answers_with(output: TypeShape) -> Signature {
    Signature { inputs: Vec::new(), output: Some(output) }
}

#[test]
fn unit_type_is_the_empty_tuple() {
    assert!(is_unit_type(&unit()));
    assert!(!is_unit_type(&TypeShape::Tuple { elements: 2 }));
    assert!(!is_unit_type(&plain("User")));
    assert!(!is_unit_type(&TypeShape::Other));
    assert!(!is_unit_type(&empty_path()));
}

#[test]
fn wrapped_type_is_the_first_argument_of_the_named_segment() {
    let ty = generic("Json", plain("User"));
    assert_eq!(wrapped_type(&ty, "Json"), Some(&plain("User")));
    assert_eq!(wrapped_type(&ty, "Query"), None);
    assert_eq!(wrapped_type(&plain("Json"), "Json"), None);
    assert_eq!(wrapped_type(&TypeShape::Other, "Json"), None);
    assert_eq!(wrapped_type(&empty_path(), "Json"), None);
    assert_eq!(wrapped_type(&unit(), "Json"), None);
}

#[test]
fn request_is_the_first_json_argument() {
    let signature = takes(vec![
        generic("State", plain("AppState")),
        generic("Json", plain("CreateUser")),
        generic("Json", plain("Other")),
    ]);
    assert_eq!(extract_request_type(&signature), Some(1));
    assert_eq!(extract_query_type(&signature), None);
}

#[test]
fn query_is_the_first_query_argument() {
    let signature = takes(vec![
        generic("Query", plain("Page")),
        generic("Json", plain("CreateUser")),
        TypeShape::Other,
    ]);
    assert_eq!(extract_query_type(&signature), Some(0));
    assert_eq!(extract_request_type(&signature), Some(1));
}

#[test]
fn handler_without_arguments_takes_nothing() {
    let signature = takes(Vec::new());
    assert_eq!(extract_request_type(&signature), None);
    assert_eq!(extract_query_type(&signature), None);
    assert_eq!(extract_response_type(&signature), None);
}

#[test]
fn receiver_and_other_types_are_passed_over() {
    let signature = Signature {
        inputs: vec![
            Argument::Receiver,
            Argument::Typed(TypeShape::Other),
            Argument::Typed(unit()),
            Argument::Typed(plain("Json")),
            Argument::Typed(generic("Json", unit())),
        ],
        output: None,
    };
    assert_eq!(extract_request_type(&signature), Some(4));
}

#[test]
fn path_without_segments_ends_the_search() {
    let signature = takes(vec![empty_path(), generic("Json", plain("CreateUser"))]);
    assert_eq!(extract_request_type(&signature), None);
    let later = takes(vec![generic("Json", plain("CreateUser")), empty_path()]);
    assert_eq!(extract_request_type(&later), Some(0));
    assert_eq!(extract_query_type(&later), None);
}

#[test]
fn argument_search_takes_any_wrapper_name() {
    let signature = takes(vec![generic("Path", plain("Id")), generic("Form", plain("Login"))]);
    assert_eq!(extract_argument(&signature, "Form"), Some(1));
    assert_eq!(extract_argument(&signature, "Path"), Some(0));
    assert_eq!(extract_argument(&signature, "form"), None);
}

#[test]
fn response_in_json() {
    assert_eq!(
        extract_response_type(&answers_with(generic("Json", plain("User")))),
        Some(ResponseWrapper::Json)
    );
}

#[test]
fn response_in_result_of_json() {
    assert_eq!(
        extract_response_type(&answers_with(generic("Result", generic("Json", plain("User"))))),
        Some(ResponseWrapper::ResultOfJson)
    );
}

#[test]
fn unit_response_describes_no_answer() {
    assert_eq!(extract_response_type(&answers_with(generic("Json", unit()))), None);
    assert_eq!(extract_response_type(&answers_with(generic("Result", generic("Json", unit())))), None);
}

#[test]
fn other_return_types_describe_no_answer() {
    assert_eq!(extract_response_type(&answers_with(plain("StatusCode"))), None);
    assert_eq!(extract_response_type(&answers_with(plain("Json"))), None);
    assert_eq!(extract_response_type(&answers_with(generic("Result", plain("User")))), None);
    assert_eq!(extract_response_type(&answers_with(generic("Result", TypeShape::Other))), None);
    assert_eq!(extract_response_type(&answers_with(generic("Option", generic("Json", plain("User"))))), None);
    assert_eq!(extract_response_type(&answers_with(unit())), None);
    assert_eq!(extract_response_type(&answers_with(empty_path())), None);
    assert_eq!(extract_response_type(&answers_with(generic("Result", empty_path()))), None);
    assert_eq!(extract_response_type(&answers_with(TypeShape::Other)), None);
}

#[test]
fn tuple_in_json_is_an_answer_unless_empty() {
    let pair = TypeShape::Tuple { elements: 2 };
    assert_eq!(extract_response_type(&answers_with(generic("Json", pair))), Some(ResponseWrapper::Json));
}
