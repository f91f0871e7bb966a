use bf_rust::{Program, WrapPolicy};

const MEM_SIZE: usize = 1 << 20;

#[test]
fn test_hello_world() {
    let program = String::from("++++++++[>++++[>++>+++>+++>+<<<<-]>+>+>->>+[<]<-]>>.>---.+++++++..+++.>>.<-.<.+++.------.--------.>>+.>++.");
    let memory = vec![0u8; MEM_SIZE];
    let machine = Program::new(&[String::from(""), program], memory);
    assert_eq!(
        String::from("Hello World!\n"),
        machine.unwrap().run(&[]).unwrap()
    );
}

#[test]
fn test_hello_world_2() {
    let program = String::from(">++++++++[-<+++++++++>]<.>>+>-[+]++>++>+++[>[->+++<<+++>]<<]>-----.>->+++..+++.>-.<<+[>[+>+]>>]<--------------.>>.+++.------.--------.>+.>+.");
    let memory = vec![0u8; MEM_SIZE];
    let machine = Program::new(&[String::from(""), program], memory);
    assert_eq!(
        String::from("Hello World!\n"),
        machine
            .unwrap()
            .with_policy(WrapPolicy::Unchecked)
            .run(&[])
            .unwrap()
    );
}
