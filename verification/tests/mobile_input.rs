use pkg2mpkg::json::JsonValue;
use pkg2mpkg::scene::mobile_input::transform_scene_for_mobile_input;
use serde_json::Value;

fn to_json_value(value: &Value) -> JsonValue {
    match value {
        Value::Null => JsonValue::Null,
        Value::Bool(b) => JsonValue::Bool(*b),
        Value::Number(n) => JsonValue::Number(n.to_string()),
        Value::String(s) => JsonValue::String(s.clone()),
        Value::Array(items) => JsonValue::Array(items.iter().map(to_json_value).collect()),
        Value::Object(map) => JsonValue::Object(map.iter().map(|(k, v)| (k.clone(), to_json_value(v))).collect()),
    }
}

fn from_json_value(value: &JsonValue) -> Value {
    match value {
        JsonValue::Null => Value::Null,
        JsonValue::Bool(b) => Value::Bool(*b),
        JsonValue::Number(n) => serde_json::from_str(n).unwrap(),
        JsonValue::String(s) => Value::String(s.clone()),
        JsonValue::Array(items) => Value::Array(items.iter().map(from_json_value).collect()),
        JsonValue::Object(pairs) => {
            let mut map = serde_json::Map::new();
            for (k, v) in pairs {
                map.insert(k.clone(), from_json_value(v));
            }
            Value::Object(map)
        }
    }
}

/// The byte-level transform: parse, rewrite, serialize compactly with a
/// trailing newline; a scene left alone keeps its bytes.
fn transform_scene_json_for_mobile_input(bytes: &[u8]) -> Result<Vec<u8>, String> {
    let root: Value = serde_json::from_slice(bytes).map_err(|e| e.to_string())?;
    match transform_scene_for_mobile_input(&to_json_value(&root)) {
        Some(v) => {
            let mut out = serde_json::to_vec(&from_json_value(&v)).unwrap();
            if out.last().copied() != Some(b'\n') {
                out.push(b'\n');
            }
            Ok(out)
        }
        None => Ok(bytes.to_vec()),
    }
}

fn obj(members: Vec<(&str, Value)>) -> Value {
    let mut map = serde_json::Map::new();
    for (k, v) in members {
        map.insert(k.to_owned(), v);
    }
    Value::Object(map)
}

fn text(s: &str) -> Value {
    Value::String(s.to_owned())
}

fn scene(objects: Vec<Value>) -> Value {
    obj(vec![("objects", Value::Array(objects))])
}

fn layer(name: &str, script: &str) -> Value {
    obj(vec![("name", text(name)), ("visible", obj(vec![("script", text(script))]))])
}

const JUMP: &str = "export function cursorDown(event) {\njump();\n}\n";

fn interactive() -> Value {
    layer("interactive", JUMP)
}

fn postprocess() -> Value {
    obj(vec![("name", text("postprocess")), ("visible", obj(vec![("value", Value::Bool(true))]))])
}

fn postprocess_with(script: &str) -> Value {
    obj(vec![
        ("name", text("postprocess")),
        ("visible", obj(vec![("value", Value::Bool(true)), ("script", text(script))])),
    ])
}

fn bytes_of(scene: &Value) -> Vec<u8> {
    serde_json::to_vec(scene).unwrap()
}

fn assert_ambiguous_source_script_is_byte_stable(ambiguous_script: &str) {
    let scene = scene(vec![layer("ambiguous", ambiguous_script), interactive(), postprocess()]);
    let bytes = bytes_of(&scene);
    let out = transform_scene_json_for_mobile_input(&bytes).unwrap();
    assert_eq!(out, bytes, "ambiguous script: {ambiguous_script}");
}

fn assert_postprocess_relay_is_byte_stable(relay: &str) {
    let scene = scene(vec![interactive(), postprocess_with(relay)]);
    let bytes = bytes_of(&scene);
    let out = transform_scene_json_for_mobile_input(&bytes).unwrap();
    assert_eq!(out, bytes, "ambiguous relay: {relay}");
}

fn assert_source_is_byte_stable(script: &str) {
    let scene = scene(vec![layer("interactive", script), postprocess()]);
    let bytes = bytes_of(&scene);
    let out = transform_scene_json_for_mobile_input(&bytes).unwrap();
    assert_eq!(out, bytes, "source script: {script}");
}

fn transformed(scene: &Value) -> Value {
    let out = transform_scene_json_for_mobile_input(&bytes_of(scene)).unwrap();
    serde_json::from_slice(&out).unwrap()
}

fn script_at(v: &Value, index: usize) -> String {
    v["objects"][index]["visible"]["script"].as_str().unwrap().to_owned()
}

#[test]
fn rewrites_non_empty_cursor_down_and_adds_postprocess_relay() {
    let scene = scene(vec![
        layer("mario_walk_1", "export function cursorDown(event) {\njumpVelocity = 700;\n}\nexport function update() {}\n"),
        obj(vec![
            ("name", text("postprocess")),
            ("visible", obj(vec![("value", Value::Bool(true)), ("user", Value::Bool(false))])),
        ]),
    ]);
    let v = transformed(&scene);
    let mario = script_at(&v, 0);
    assert!(mario.contains("function doJump()"));
    assert!(mario.contains("shared.doJump = doJump"));
    assert!(mario.contains("jumpVelocity = 700;"));
    assert!(mario.contains("export function cursorDown(event) {\n}"));
    let post = script_at(&v, 1);
    assert!(post.contains("shared.doJump()"));
    assert_eq!(v["objects"][1]["visible"]["value"], true);
    assert_eq!(v["objects"][1]["visible"]["user"], false);
}

#[test]
fn skips_when_shared_do_jump_already_present() {
    let script = "function doJump(){ x(); }\nshared.doJump = doJump;\nexport function cursorDown(event) {\n}\n";
    let scene = scene(vec![layer("mario_walk_1", script)]);
    let v = transformed(&scene);
    assert_eq!(script_at(&v, 0), script);
}

#[test]
fn preserves_existing_postprocess_script_when_adding_relay() {
    let postprocess_script = "export function update(value) {\nreturn !value;\n}\n";
    let scene = scene(vec![interactive(), postprocess_with(postprocess_script)]);
    let v = transformed(&scene);
    let post = script_at(&v, 1);
    assert!(post.starts_with(postprocess_script));
    assert!(post.contains("return !value;"));
    assert!(post.contains("shared.doJump();"));
}

#[test]
fn leaves_scene_unchanged_without_postprocess_relay_target() {
    let scene = scene(vec![interactive()]);
    let bytes = bytes_of(&scene);
    let out = transform_scene_json_for_mobile_input(&bytes).unwrap();
    assert_eq!(out, bytes);
}

#[test]
fn leaves_scene_unchanged_when_multiple_handlers_would_compete_for_shared_jump() {
    let scene = scene(vec![
        layer("first", "export function cursorDown(event) {\nfirst();\n}\n"),
        layer("second", "export function cursorDown(event) {\nsecond();\n}\n"),
        postprocess(),
    ]);
    let bytes = bytes_of(&scene);
    let out = transform_scene_json_for_mobile_input(&bytes).unwrap();
    assert_eq!(out, bytes);
}

#[test]
fn leaves_scene_unchanged_when_postprocess_has_an_unrelated_cursor_handler() {
    let scene = scene(vec![
        interactive(),
        postprocess_with("export function cursorDown(event) {\ncustomPostprocessAction();\n}\n"),
    ]);
    let bytes = bytes_of(&scene);
    let out = transform_scene_json_for_mobile_input(&bytes).unwrap();
    assert_eq!(out, bytes);
}

#[test]
fn reuses_existing_postprocess_shared_jump_relay() {
    let relay = "export function cursorDown(event) {\nshared.doJump();\n}\n";
    let scene = scene(vec![interactive(), postprocess_with(relay)]);
    let v = transformed(&scene);
    assert!(script_at(&v, 0).contains("shared.doJump = doJump"));
    assert_eq!(v["objects"][1]["visible"]["script"], relay);
}

#[test]
fn leaves_scene_unchanged_when_postprocess_visible_is_not_an_object() {
    let scene = scene(vec![interactive(), obj(vec![("name", text("postprocess")), ("visible", Value::Bool(true))])]);
    let bytes = bytes_of(&scene);
    let out = transform_scene_json_for_mobile_input(&bytes).unwrap();
    assert_eq!(out, bytes);
}

#[test]
fn leaves_scene_unchanged_when_another_script_owns_shared_do_jump() {
    let scene = scene(vec![
        layer("owner", "function existingJump() {}\nshared.doJump = existingJump;\n"),
        interactive(),
        postprocess(),
    ]);
    let bytes = bytes_of(&scene);
    let out = transform_scene_json_for_mobile_input(&bytes).unwrap();
    assert_eq!(out, bytes);
}

#[test]
fn rejects_postprocess_text_that_is_not_a_shared_do_jump_call() {
    let invalid_bodies = [
        "shared.doJumpElse();",
        "// shared.doJump();\ncustom();",
        "const message = 'shared.doJump()';\ncustom();",
        "const jump = shared.doJump;\ncustom();",
        "shared.doJump = custom;",
    ];
    for invalid_body in invalid_bodies {
        let relay = format!("export function cursorDown(event) {{\n{invalid_body}\n}}\n");
        let scene = scene(vec![interactive(), postprocess_with(&relay)]);
        let bytes = bytes_of(&scene);
        let out = transform_scene_json_for_mobile_input(&bytes).unwrap();
        assert_eq!(out, bytes, "invalid relay body: {invalid_body}");
    }
}

#[test]
fn rejects_qualified_shared_do_jump_calls() {
    for relay in [
        "export function cursorDown(event) {\nevent.shared.doJump();\n}\n",
        "export function cursorDown(event) {\nthis.shared.doJump();\n}\n",
    ] {
        assert_postprocess_relay_is_byte_stable(relay);
    }
}

#[test]
fn rejects_shared_parameter_shadowing() {
    assert_postprocess_relay_is_byte_stable("export function cursorDown(shared) {\nshared.doJump();\n}\n");
}

#[test]
fn rejects_shared_local_shadowing() {
    for relay in [
        "export function cursorDown(event) {\nlet shared = event;\nshared.doJump();\n}\n",
        "export function cursorDown(event) {\nfunction shared() {}\nshared.doJump();\n}\n",
    ] {
        assert_postprocess_relay_is_byte_stable(relay);
    }
}

#[test]
fn rejects_module_scope_variable_shared_bindings() {
    for relay in [
        "const shared = fake;\nexport function cursorDown(event) {\nshared.doJump();\n}\n",
        "let shared = fake;\nexport function cursorDown(event) {\nshared.doJump();\n}\n",
        "var shared = fake;\nexport function cursorDown(event) {\nshared.doJump();\n}\n",
    ] {
        assert_postprocess_relay_is_byte_stable(relay);
    }
}

#[test]
fn rejects_module_scope_function_class_and_import_shared_bindings() {
    for relay in [
        "function shared() {}\nexport function cursorDown(event) {\nshared.doJump();\n}\n",
        "class shared {}\nexport function cursorDown(event) {\nshared.doJump();\n}\n",
        "import shared from 'module';\nexport function cursorDown(event) {\nshared.doJump();\n}\n",
    ] {
        assert_postprocess_relay_is_byte_stable(relay);
    }
}

#[test]
fn rejects_unicode_escaped_variable_shared_bindings() {
    for relay in [
        "const sh\\u0061red = fake;\nexport function cursorDown(event) {\nshared.doJump();\n}\n",
        "let \\u0073hared = fake;\nexport function cursorDown(event) {\nshared.doJump();\n}\n",
    ] {
        assert_postprocess_relay_is_byte_stable(relay);
    }
}

#[test]
fn rejects_unicode_escaped_function_class_and_import_bindings() {
    for relay in [
        "function sh\\u0061red() {}\nexport function cursorDown(event) {\nshared.doJump();\n}\n",
        "class \\u0073hared {}\nexport function cursorDown(event) {\nshared.doJump();\n}\n",
        "import sh\\u0061red from 'module';\nexport function cursorDown(event) {\nshared.doJump();\n}\n",
    ] {
        assert_postprocess_relay_is_byte_stable(relay);
    }
}

#[test]
fn rejects_noncanonical_shared_do_jump_expressions() {
    for relay in [
        "export function cursorDown(event) {\nshared?.doJump();\n}\n",
        "export function cursorDown(event) {\nshared.doJump(event);\n}\n",
        "export function cursorDown(event) {\nshared.doJump().then(done);\n}\n",
        "export function cursorDown(event) {\nshared.doJump();\ncustom();\n}\n",
    ] {
        assert_postprocess_relay_is_byte_stable(relay);
    }
}

fn assert_relay_reused(relay: &str) {
    let scene = scene(vec![interactive(), postprocess_with(relay)]);
    let v = transformed(&scene);
    assert!(script_at(&v, 0).contains("shared.doJump = doJump"));
    assert_eq!(v["objects"][1]["visible"]["script"], relay);
}

#[test]
fn reuses_canonical_relay_with_inert_comments_and_whitespace() {
    assert_relay_reused("export function cursorDown( event ) {\n// relay to the source handler\nshared /* global */ . doJump ( ) ;\n}\n");
}

#[test]
fn reuses_canonical_relay_when_other_shared_text_is_inert() {
    assert_relay_reused("// const shared = commentOnly;\nconst example = 'shared';\nexport function cursorDown(event) {\nshared.doJump();\n}\n");
}

#[test]
fn reuses_canonical_relay_when_unicode_escape_text_is_inert() {
    assert_relay_reused("// const sh\\u0061red = commentOnly;\nconst example = '\\u0073hared';\nexport function cursorDown(event) {\nshared.doJump();\n}\n");
}

#[test]
fn reuses_postprocess_relay_with_extra_export_spacing() {
    assert_relay_reused("export  function cursorDown(event) {\nshared.doJump();\n}\n");
}

#[test]
fn ignores_cursor_down_declarations_inside_comments_and_strings() {
    for fake in [
        "// export function cursorDown(event) { fake(); }\n",
        "const example = 'export function cursorDown(event) { fake(); }';\n",
    ] {
        let scene = scene(vec![layer("fake", fake), postprocess()]);
        let bytes = bytes_of(&scene);
        let out = transform_scene_json_for_mobile_input(&bytes).unwrap();
        assert_eq!(out, bytes, "fake declaration: {fake}");
    }
}

#[test]
fn leaves_scene_unchanged_when_a_template_makes_preflight_ambiguous() {
    let scene = scene(vec![
        layer("template-user", "const message = `${shared.doJump = hidden}`;\n"),
        interactive(),
        postprocess(),
    ]);
    let bytes = bytes_of(&scene);
    let out = transform_scene_json_for_mobile_input(&bytes).unwrap();
    assert_eq!(out, bytes);
}

#[test]
fn leaves_scene_unchanged_for_every_executable_slash_context() {
    for ambiguous_script in [
        "check() / harmless /;\n",
        "function check() {} / harmless /;\n",
        "count++ / harmless /;\n",
        "; /harmless/;\n",
        "const ratio = width / height;\n",
    ] {
        assert_ambiguous_source_script_is_byte_stable(ambiguous_script);
    }
}

#[test]
fn leaves_scene_unchanged_when_source_delimiters_are_malformed() {
    for malformed_script in [
        "function malformed( { }\n",
        "function malformed() { return ([)]; }\n",
        "function malformed() {\n",
    ] {
        assert_ambiguous_source_script_is_byte_stable(malformed_script);
    }
}

#[test]
fn leaves_scene_unchanged_when_postprocess_relay_call_is_malformed() {
    let scene = scene(vec![interactive(), postprocess_with("export function cursorDown(event) {\nshared.doJump(\n}\n)\n")]);
    let bytes = bytes_of(&scene);
    let out = transform_scene_json_for_mobile_input(&bytes).unwrap();
    assert_eq!(out, bytes);
}

#[test]
fn leaves_scene_unchanged_for_computed_shared_property_access() {
    for computed_owner in [
        "shared['doJump'] = existingJump;\n",
        "shared[\"doJump\"] = existingJump;\n",
        "shared[dynamicProperty] = existingJump;\n",
    ] {
        assert_ambiguous_source_script_is_byte_stable(computed_owner);
    }
}

#[test]
fn ignores_computed_shared_property_text_in_comments_and_strings() {
    let harmless_text = "// shared['doJump'] = commentOnly;\nconst example = \"shared[dynamicProperty] = stringOnly\";\n";
    let scene = scene(vec![layer("documentation", harmless_text), interactive(), postprocess()]);
    let v = transformed(&scene);
    assert_eq!(v["objects"][0]["visible"]["script"], harmless_text);
    assert!(script_at(&v, 1).contains("shared.doJump = doJump"));
}

#[test]
fn leaves_scene_unchanged_for_multiple_cursor_down_declarations_in_one_script() {
    assert_source_is_byte_stable("export function cursorDown(event) {\nfirst();\n}\nexport function cursorDown(event) {\nsecond();\n}\n");
}

#[test]
fn leaves_context_dependent_cursor_handlers_byte_stable() {
    for body in ["jumpAt(event.x);", "this.jump();", "jumpWith(arguments[0]);"] {
        assert_source_is_byte_stable(&format!("export function cursorDown(event) {{\n{body}\n}}\n"));
    }
}

#[test]
fn leaves_source_identifier_conflicts_byte_stable() {
    for declaration in [
        "const shared = fake;",
        "function shared() {}",
        "const doJump = fake;",
        "function doJump() {}",
        "const sh\\u0061red = fake;",
        "const doJ\\u0075mp = fake;",
    ] {
        assert_source_is_byte_stable(&format!("{declaration}\nexport function cursorDown(event) {{\njump();\n}}\n"));
    }
}

#[test]
fn leaves_postprocess_append_target_shadowing_byte_stable() {
    for declaration in ["const shared = fake;", "function shared() {}", "const sh\\u0061red = fake;"] {
        let relay = format!("{declaration}\nexport function update(value) {{ return value; }}\n");
        let scene = scene(vec![interactive(), postprocess_with(&relay)]);
        let bytes = bytes_of(&scene);
        let out = transform_scene_json_for_mobile_input(&bytes).unwrap();
        assert_eq!(out, bytes, "postprocess declaration: {declaration}");
    }
}

fn rewritten_source(source_script: &str) -> String {
    let scene = scene(vec![layer("interactive", source_script), postprocess()]);
    script_at(&transformed(&scene), 0)
}

#[test]
fn rewrites_only_executable_local_storage_location_tokens() {
    let script = rewritten_source("const globalLocation = localStorage /* keep-global-comment */ . LOCATION_GLOBAL;\nconst defaultLocation = localStorage.LOCATION_DEFAULT;\nconst inert = 'localStorage.LOCATION_GLOBAL';\n// localStorage.LOCATION_DEFAULT must remain documentation\nexport function cursorDown(event) {\njump();\n}\n");
    assert!(script.contains("const globalLocation = 'global' /* keep-global-comment */"));
    assert!(script.contains("const defaultLocation = 'default';"));
    assert!(script.contains("const inert = 'localStorage.LOCATION_GLOBAL';"));
    assert!(script.contains("// localStorage.LOCATION_DEFAULT must remain documentation"));
}

#[test]
fn leaves_local_storage_location_write_contexts_byte_stable() {
    for write_statement in [
        "localStorage.LOCATION_GLOBAL = value;",
        "localStorage.LOCATION_GLOBAL += value;",
        "localStorage.LOCATION_GLOBAL -= value;",
        "localStorage.LOCATION_GLOBAL *= value;",
        "localStorage.LOCATION_GLOBAL /= value;",
        "localStorage.LOCATION_GLOBAL %= value;",
        "localStorage.LOCATION_GLOBAL **= value;",
        "localStorage.LOCATION_GLOBAL <<= value;",
        "localStorage.LOCATION_GLOBAL >>= value;",
        "localStorage.LOCATION_GLOBAL >>>= value;",
        "localStorage.LOCATION_GLOBAL &= value;",
        "localStorage.LOCATION_GLOBAL |= value;",
        "localStorage.LOCATION_GLOBAL ^= value;",
        "localStorage.LOCATION_GLOBAL &&= value;",
        "localStorage.LOCATION_GLOBAL ||= value;",
        "localStorage.LOCATION_GLOBAL ??= value;",
        "localStorage.LOCATION_GLOBAL++;",
        "localStorage.LOCATION_GLOBAL--;",
        "++localStorage.LOCATION_GLOBAL;",
        "--localStorage.LOCATION_GLOBAL;",
        "(localStorage.LOCATION_GLOBAL) = value;",
        "(localStorage.LOCATION_GLOBAL) += value;",
        "(localStorage.LOCATION_GLOBAL)++;",
        "--(localStorage.LOCATION_GLOBAL);",
        "delete localStorage.LOCATION_GLOBAL;",
        "delete (localStorage.LOCATION_GLOBAL);",
        "[localStorage.LOCATION_GLOBAL] = values;",
        "({ value: localStorage.LOCATION_GLOBAL } = source);",
        "for (localStorage.LOCATION_GLOBAL of values) {}",
        "for (localStorage.LOCATION_GLOBAL in values) {}",
        "for ((localStorage.LOCATION_GLOBAL) of values) {}",
    ] {
        assert_source_is_byte_stable(&format!("{write_statement}\nexport function cursorDown(event) {{\njump();\n}}\n"));
    }
}

#[test]
fn keeps_inert_local_storage_write_text_while_rewriting_reads() {
    let script = rewritten_source("// localStorage.LOCATION_GLOBAL = documentationOnly;\nconst example = 'localStorage.LOCATION_DEFAULT++;';\nconst location = localStorage.LOCATION_GLOBAL;\nexport function cursorDown(event) {\njump();\n}\n");
    assert!(script.contains("// localStorage.LOCATION_GLOBAL = documentationOnly;"));
    assert!(script.contains("'localStorage.LOCATION_DEFAULT++;'"));
    assert!(script.contains("const location = 'global';"));
}

#[test]
fn rewrites_local_storage_reads_inside_destructuring_syntax() {
    let script = rewritten_source("let selected;\n[selected = localStorage.LOCATION_GLOBAL] = values;\n({ [localStorage.LOCATION_DEFAULT]: selected } = source);\nexport function cursorDown(event) {\njump();\n}\n");
    assert!(script.contains("[selected = 'global'] = values;"));
    assert!(script.contains("({ ['default']: selected } = source);"));
}

#[test]
fn rewrites_nested_destructuring_default_reads() {
    let script = rewritten_source("let selected;\n({ key: [selected = localStorage.LOCATION_GLOBAL] } = source);\nexport function cursorDown(event) {\njump();\n}\n");
    assert!(script.contains("{ key: [selected = 'global'] }"));
}

#[test]
fn rewrites_comparison_arrow_and_membership_reads() {
    let script = rewritten_source("const equal = localStorage.LOCATION_GLOBAL == expected;\nconst strictEqual = localStorage.LOCATION_DEFAULT === expected;\nconst notEqual = localStorage.LOCATION_GLOBAL != expected;\nconst strictNotEqual = localStorage.LOCATION_DEFAULT !== expected;\nconst atMost = localStorage.LOCATION_GLOBAL <= expected;\nconst getter = value => localStorage.LOCATION_DEFAULT;\nconst present = localStorage.LOCATION_GLOBAL in locations;\nlet selected;\n[selected = value => localStorage.LOCATION_DEFAULT] = values;\nexport function cursorDown(event) {\njump();\n}\n");
    assert!(!script.contains("localStorage.LOCATION_"));
    assert!(script.contains("const equal = 'global' == expected;"));
    assert!(script.contains("const strictEqual = 'default' === expected;"));
    assert!(script.contains("const present = 'global' in locations;"));
    assert!(script.contains("[selected = value => 'default'] = values;"));
}

#[test]
fn leaves_cursor_down_body_self_references_byte_stable() {
    for body in ["cursorDown();", "const retry = cursorDown;\nretry();", "const handlers = { cursorDown };"] {
        assert_source_is_byte_stable(&format!("export function cursorDown(event) {{\n{body}\njump();\n}}\n"));
    }
}

#[test]
fn leaves_cursor_down_references_outside_the_declaration_byte_stable() {
    for other_reference in [
        "export function helper() { cursorDown(); }",
        "const handler = cursorDown;",
        "export function helper() { return { cursorDown }; }",
    ] {
        assert_source_is_byte_stable(&format!("{other_reference}\nexport function cursorDown(event) {{\njump();\n}}\n"));
    }
}

#[test]
fn cursor_down_text_in_body_comments_and_strings_remains_inert() {
    let script = rewritten_source("export function cursorDown(event) {\n// cursorDown() is documentation only.\nconst name = 'cursorDown';\njump();\n}\n");
    assert!(script.contains("function doJump()"));
}

#[test]
fn leaves_eval_driven_cursor_handlers_byte_stable() {
    for hidden_context in [
        "event.x",
        "this.jump()",
        "arguments[0]",
        "shared.doJump = hiddenJump",
        "const doJump = hiddenJump",
    ] {
        assert_source_is_byte_stable(&format!("export function cursorDown(event) {{\neval({hidden_context:?});\njump();\n}}\n"));
    }
}

#[test]
fn leaves_scene_unchanged_when_another_source_script_executes_eval() {
    assert_ambiguous_source_script_is_byte_stable("eval('shared.doJump = hiddenJump; const doJump = hiddenJump');\n");
}

#[test]
fn leaves_postprocess_eval_target_byte_stable() {
    let scene = scene(vec![
        interactive(),
        postprocess_with("eval('const shared = fake; shared.doJump = hiddenJump');\nexport function update(value) { return value; }\n"),
    ]);
    let bytes = bytes_of(&scene);
    let out = transform_scene_json_for_mobile_input(&bytes).unwrap();
    assert_eq!(out, bytes);
}

#[test]
fn eval_text_in_comments_and_strings_remains_inert() {
    let inert_eval = "// eval('shared.doJump = commentOnly');\nconst example = \"eval('event.x; this.jump(); arguments[0]')\";\n";
    let scene = scene(vec![layer("documentation", inert_eval), interactive(), postprocess()]);
    let v = transformed(&scene);
    assert_eq!(v["objects"][0]["visible"]["script"], inert_eval);
    assert!(script_at(&v, 1).contains("shared.doJump = doJump"));
}

#[test]
fn leaves_shadowed_local_storage_location_access_byte_stable() {
    for shadowing_script in [
        "const localStorage = fake;\nconst location = localStorage.LOCATION_GLOBAL;",
        "let localStorage = fake;\nconst location = localStorage.LOCATION_GLOBAL;",
        "var localStorage = fake;\nconst location = localStorage.LOCATION_GLOBAL;",
        "function localStorage() {}\nconst location = localStorage.LOCATION_GLOBAL;",
        "class localStorage {}\nconst location = localStorage.LOCATION_GLOBAL;",
        "import localStorage from 'module';\nconst location = localStorage.LOCATION_GLOBAL;",
        "const { localStorage } = fake;\nconst location = localStorage.LOCATION_GLOBAL;",
        "function helper(localStorage) { return localStorage.LOCATION_GLOBAL; }",
        "const local\\u0053torage = fake;\nconst location = localStorage.LOCATION_GLOBAL;",
    ] {
        assert_source_is_byte_stable(&format!("{shadowing_script}\nexport function cursorDown(event) {{\njump();\n}}\n"));
    }
}

fn postprocess_with_nested(nested_script: &str) -> Value {
    obj(vec![
        ("name", text("postprocess")),
        ("visible", obj(vec![("value", Value::Bool(true))])),
        (
            "effects",
            Value::Array(vec![obj(vec![("passes", Value::Array(vec![obj(vec![("script", text(nested_script))])]))])]),
        ),
    ])
}

#[test]
fn audits_ambiguous_scripts_nested_below_postprocess() {
    for nested_script in [
        "eval('shared.doJump = hiddenJump');\n",
        "function hiddenJump() {}\nshared.doJump = hiddenJump;\n",
        "const sh\\u0061red = fake;\n",
        "const doJ\\u0075mp = fake;\n",
    ] {
        let scene = scene(vec![interactive(), postprocess_with_nested(nested_script)]);
        let bytes = bytes_of(&scene);
        let out = transform_scene_json_for_mobile_input(&bytes).unwrap();
        assert_eq!(out, bytes, "nested script: {nested_script}");
    }
}

#[test]
fn allows_benign_scripts_nested_below_postprocess() {
    let nested_script = "// Official Dino-style nested effect helper.\nexport function update(value) { return value; }\n";
    let scene = scene(vec![interactive(), postprocess_with_nested(nested_script)]);
    let v = transformed(&scene);
    assert!(script_at(&v, 0).contains("shared.doJump = doJump"));
    assert_eq!(v["objects"][1]["effects"][0]["passes"][0]["script"], nested_script);
    assert!(script_at(&v, 1).contains("shared.doJump()"));
}

#[test]
fn leaves_for_await_local_storage_location_targets_byte_stable() {
    for target in [
        "localStorage.LOCATION_GLOBAL",
        "(localStorage.LOCATION_GLOBAL)",
        "[localStorage.LOCATION_GLOBAL]",
        "{ key: localStorage.LOCATION_GLOBAL }",
    ] {
        assert_source_is_byte_stable(&format!(
            "async function consume(values) {{\nfor /* gap */ await\n({target} of values) {{}}\n}}\nexport function cursorDown(event) {{\njump();\n}}\n"
        ));
    }
}

#[test]
fn leaves_unsupported_local_storage_location_accesses_byte_stable() {
    for access in ["localStorage?.LOCATION_GLOBAL", "localStorage['LOCATION_GLOBAL']", "localStorage[\"LOCATION_DEFAULT\"]"] {
        assert_source_is_byte_stable(&format!("const location = {access};\nexport function cursorDown(event) {{\njump();\n}}\n"));
    }
}

#[test]
fn rewrites_locations_alongside_official_local_storage_methods() {
    let script = rewritten_source("localStorage.set('score', 1, localStorage.LOCATION_GLOBAL);\nconst score = localStorage.get('score', localStorage.LOCATION_DEFAULT);\nexport function cursorDown(event) {\njump();\n}\n");
    assert!(script.contains("localStorage.set('score', 1, 'global')"));
    assert!(script.contains("localStorage.get('score', 'default')"));
    assert!(script.contains("shared.doJump = doJump"));
}

#[test]
fn leaves_unverified_local_storage_members_byte_stable() {
    for access in [
        "localStorage.LOCATION_CUSTOM",
        "localStorage.clear()",
        "const get = localStorage.get",
        "localStorage.set.call(null, 'score', 1)",
    ] {
        assert_source_is_byte_stable(&format!(
            "const global = localStorage.LOCATION_GLOBAL;\n{access};\nexport function cursorDown(event) {{\njump();\n}}\n"
        ));
    }
}

fn sibling_scene(sibling_script: &str, postprocess_script: Option<&str>) -> Value {
    let post = match postprocess_script {
        Some(script) => postprocess_with(script),
        None => postprocess(),
    };
    scene(vec![layer("sibling", sibling_script), interactive(), post])
}

#[test]
fn leaves_sibling_and_postprocess_local_storage_scripts_byte_stable() {
    for (sibling_script, postprocess_script) in [
        ("const location = localStorage.LOCATION_GLOBAL;", None),
        ("localStorage.clear();", None),
        ("const location = globalThis['localStorage'].LOCATION_GLOBAL;", None),
        ("const location = window[\"localStorage\"].LOCATION_DEFAULT;", None),
        ("const location = globalThis['local\\u0053torage'].LOCATION_GLOBAL;", None),
        ("const location = globalThis['local\\u{53}torage'].LOCATION_GLOBAL;", None),
        ("const location = globalThis?.['localStorage'].LOCATION_GLOBAL;", None),
        ("const location = globalThis['local\\\nStorage'].LOCATION_GLOBAL;", None),
        ("const location = globalThis['local\\\u{2028}Storage'].LOCATION_GLOBAL;", None),
        ("const location = globalThis['local\\\u{2029}Storage'].LOCATION_GLOBAL;", None),
        ("const location = globalThis['local' + ('Storage')].LOCATION_GLOBAL;", None),
        ("const location = globalThis[[('local' + 'Storage')][0]].LOCATION_GLOBAL;", None),
        ("const location = globalThis[true ? ('local' + 'Storage') : 'safe'].LOCATION_GLOBAL;", None),
        ("const location = globalThis['localStorag' + String.fromCharCode(101)].LOCATION_GLOBAL;", None),
        ("const location = globalThis[flag ? 'local' : 'Storage'].LOCATION_GLOBAL;", None),
        ("// comment\u{2028}const location = globalThis['localStorage'].LOCATION_GLOBAL;", None),
        ("// comment\u{2029}const location = globalThis['localStorage'].LOCATION_GLOBAL;", None),
        ("// comment\rconst location = globalThis['localStorage'].LOCATION_GLOBAL;", None),
        ("// comment\r\nconst location = globalThis['localStorage'].LOCATION_GLOBAL;", None),
        ("const text = 'before\u{2028}after';", None),
        ("const text = 'before\u{2029}after';", None),
        (
            "export function update(value) { return value; }",
            Some("const location = localStorage.LOCATION_DEFAULT;\nexport function update(value) { return value; }\n"),
        ),
        (
            "export function update(value) { return value; }",
            Some("const location = globalThis['localStorage'].LOCATION_DEFAULT;\nexport function update(value) { return value; }\n"),
        ),
    ] {
        let scene = sibling_scene(sibling_script, postprocess_script);
        let bytes = bytes_of(&scene);
        let out = transform_scene_json_for_mobile_input(&bytes).unwrap();
        assert_eq!(out, bytes, "sibling: {sibling_script}");
    }
}

#[test]
fn allows_verified_sibling_and_postprocess_local_storage_methods() {
    for (sibling_script, postprocess_script) in [
        ("export function update(value) { return localStorage.get('score', 'global'); }", None),
        (
            "export function update(value) { return value; }",
            Some("export function update(value) { localStorage.set('score', value, 'global'); }\n"),
        ),
    ] {
        let scene = sibling_scene(sibling_script, postprocess_script);
        let bytes = bytes_of(&scene);
        let out = transform_scene_json_for_mobile_input(&bytes).unwrap();
        assert_ne!(out, bytes, "sibling: {sibling_script}");
        let rewritten: Value = serde_json::from_slice(&out).unwrap();
        let objects = rewritten["objects"].as_array().unwrap();
        assert!(objects[1]["visible"]["script"].as_str().unwrap().contains("shared.doJump = doJump"));
        assert!(objects[2]["visible"]["script"].as_str().unwrap().contains("shared.doJump()"));
    }
}

#[test]
fn allows_inert_array_and_unrelated_computed_property_text() {
    for sibling_script in [
        "const names = ['localStorage'];",
        "const value = object['unrelated'];",
        "const value = object['not\\\nLocalStorage'];",
        "const value = object['not\\\rLocalStorage'];",
        "const value = object['not\\\r\nLocalStorage'];",
        "const value = object['not\\\u{2028}LocalStorage'];",
        "const value = object['not\\\u{2029}LocalStorage'];",
    ] {
        let scene = sibling_scene(sibling_script, None);
        let bytes = bytes_of(&scene);
        let out = transform_scene_json_for_mobile_input(&bytes).unwrap();
        assert_ne!(out, bytes, "sibling: {sibling_script}");
    }
}

#[test]
fn a_rewritten_scene_is_kept_on_a_second_pass() {
    let scene = scene(vec![
        layer("mario_walk_1", "export function cursorDown(event) {\njumpVelocity = 700;\n}\nexport function update() {}\n"),
        postprocess(),
    ]);
    let once = transform_scene_json_for_mobile_input(&bytes_of(&scene)).unwrap();
    assert_ne!(once, bytes_of(&scene));
    let twice = transform_scene_json_for_mobile_input(&once).unwrap();
    assert_eq!(twice, once);
}
