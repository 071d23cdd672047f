//! The TypeScript emitter.
use ix::typescript::{EmitError, Rendered, TsEmitter};

fn emitted(rendered: Rendered) -> Result<Vec<(String, String)>, String> {
    let emitter = TsEmitter { addon: "demo".to_owned() };
    assert_eq!(emitter.target(), "ts");
    match emitter.emit(rendered) {
        Ok(files) => Ok(files.into_iter().map(|f| (f.path, f.contents)).collect()),
        Err(e) => Err(e.message),
    }
}

fn rendered(has_shapes: bool, schemas: Result<&str, &str>) -> Rendered {
    Rendered {
        declarations: Ok("d".to_owned()),
        has_shapes,
        schemas: schemas
            .map(str::to_owned)
            .map_err(|m| EmitError { message: m.to_owned() }),
        wrapper: "w".to_owned(),
    }
}

#[test]
fn an_interface_without_shapes_has_no_schemas() {
    let file = |p: &str, c: &str| (p.to_owned(), c.to_owned());
    assert_eq!(
        emitted(rendered(false, Err("unused"))),
        Ok(vec![file("index.d.ts", "d"), file("index.js", "w")])
    );
    assert_eq!(
        emitted(rendered(true, Ok("z"))),
        Ok(vec![file("index.d.ts", "d"), file("schemas.ts", "z"), file("index.js", "w")])
    );
}

#[test]
fn the_first_complaint_is_reported() {
    assert_eq!(emitted(rendered(true, Err("schemas"))), Err("schemas".to_owned()));
    let mut r = rendered(true, Err("schemas"));
    r.declarations = Err(EmitError { message: "declarations".to_owned() });
    assert_eq!(emitted(r), Err("declarations".to_owned()));
}
