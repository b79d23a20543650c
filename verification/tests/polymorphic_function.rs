use deskc::ctx::{Ctx, Store};
use deskc::ty::Type;

#[test]
fn polymorphic_function_number() {
    let mut store = Store::default();
    assert_eq!(Ctx::default().make_polymorphic(&mut store, Type::Number), Type::Number);
}

#[test]
fn polymorphic_function_function() {
    let mut store = Store::default();
    assert_eq!(
        Ctx::default().make_polymorphic(
            &mut store,
            Type::Function {
                parameter: Box::new(Type::Number),
                body: Box::new(Type::Number)
            }
        ),
        Type::Function {
            parameter: Box::new(Type::Number),
            body: Box::new(Type::Number)
        }
    );
}

#[test]
fn function_existential() {
    let mut store = Store::default();
    assert_eq!(
        Ctx::default().make_polymorphic(
            &mut store,
            Type::Function {
                parameter: Box::new(Type::Existential(1)),
                body: Box::new(Type::Existential(2))
            }
        ),
        Type::ForAll {
            variable: 0,
            body: Box::new(Type::ForAll {
                variable: 1,
                body: Box::new(Type::Function {
                    parameter: Box::new(Type::Existential(0)),
                    body: Box::new(Type::Existential(1))
                })
            })
        }
    );
}

#[test]
fn repeated_existentials_share_one_name() {
    let mut store = Store::default();
    store.id_gen.next_id = 10;
    let ty = Type::Function {
        parameter: Box::new(Type::Product(vec![Type::Existential(7), Type::Existential(3)])),
        body: Box::new(Type::Existential(7)),
    };
    assert_eq!(
        Ctx::default().make_polymorphic(&mut store, ty),
        Type::ForAll {
            variable: 10,
            body: Box::new(Type::ForAll {
                variable: 11,
                body: Box::new(Type::Function {
                    parameter: Box::new(Type::Product(vec![Type::Existential(10), Type::Existential(11)])),
                    body: Box::new(Type::Existential(10)),
                }),
            }),
        }
    );
    assert_eq!(store.id_gen.next_id, 12);
}
