use rvkernel::list::LinkedList;
use rvkernel::shell::echo;
use rvkernel::shell::shell;
use rvkernel::shell::task_start;
use rvkernel::shell::tokenize;
use rvkernel::shell::ShellReply;

#[test]
fn tokenize_splits_on_spaces_and_skips_empties() {
    let toks = tokenize(b"  ih   42 ");
    assert_eq!(toks, vec![b"ih".to_vec(), b"42".to_vec()]);
    assert_eq!(tokenize(b""), Vec::<Vec<u8>>::new());
    assert_eq!(tokenize(b"   "), Vec::<Vec<u8>>::new());
}

#[test]
fn task_start_hands_over_at_most_five_arguments() {
    let argv = task_start(b"prog a b c d e f\0trailing");
    assert_eq!(argv.len(), 5);
    assert_eq!(argv[0], b"prog".to_vec());
    assert_eq!(argv[4], b"d".to_vec());
}

#[test]
fn task_start_stops_at_the_nul() {
    let argv = task_start(b"echo hi\0garbage tokens");
    assert_eq!(argv, vec![b"echo".to_vec(), b"hi".to_vec()]);
}

#[test]
fn echo_prints_its_first_argument() {
    let argv = vec![b"echo".to_vec(), b"hi".to_vec()];
    let mut out = Vec::new();
    echo(&argv, &mut out);
    assert_eq!(out, b"hi\n".to_vec());
    let mut out2 = Vec::new();
    echo(&vec![b"echo".to_vec()], &mut out2);
    assert_eq!(out2, Vec::<u8>::new());
}

#[test]
fn inserting_at_both_ends_and_printing() {
    let mut list: LinkedList<i32> = LinkedList::new();
    assert_eq!(shell(b"ih 2\0", &mut list), ShellReply::PushedFront(2));
    assert_eq!(shell(b"ih 1\0", &mut list), ShellReply::PushedFront(1));
    assert_eq!(shell(b"it 3\0", &mut list), ShellReply::PushedBack(3));
    assert_eq!(shell(b"p\0", &mut list), ShellReply::Listed(vec![1, 2, 3]));
}

#[test]
fn popping_both_ends_until_empty() {
    let mut list: LinkedList<i32> = LinkedList::new();
    shell(b"it 1\0", &mut list);
    shell(b"it 2\0", &mut list);
    assert_eq!(shell(b"ph\0", &mut list), ShellReply::PoppedFront(1));
    assert_eq!(shell(b"pt\0", &mut list), ShellReply::PoppedBack(2));
    assert_eq!(shell(b"ph\0", &mut list), ShellReply::FrontEmpty);
    assert_eq!(shell(b"pt\0", &mut list), ShellReply::BackEmpty);
}

#[test]
fn negative_values_parse_and_bad_values_do_not() {
    let mut list: LinkedList<i32> = LinkedList::new();
    assert_eq!(shell(b"ih -7\0", &mut list), ShellReply::PushedFront(-7));
    assert_eq!(shell(b"ph\0", &mut list), ShellReply::PoppedFront(-7));
    assert_eq!(shell(b"ih +7\0", &mut list), ShellReply::PushedFront(7));
    assert_eq!(shell(b"ph\0", &mut list), ShellReply::PoppedFront(7));
    assert_eq!(shell(b"ih +-7\0", &mut list), ShellReply::BadFrontValue);
    assert_eq!(shell(b"ih -2147483648\0", &mut list), ShellReply::PushedFront(i32::MIN));
    assert_eq!(shell(b"it 2147483647\0", &mut list), ShellReply::PushedBack(i32::MAX));
    assert_eq!(shell(b"it 2147483648\0", &mut list), ShellReply::BadBackValue);
    assert_eq!(shell(b"ih -2147483649\0", &mut list), ShellReply::BadFrontValue);
    assert_eq!(shell(b"ih x7\0", &mut list), ShellReply::BadFrontValue);
    assert_eq!(shell(b"ih\0", &mut list), ShellReply::BadFrontValue);
    assert_eq!(shell(b"p\0", &mut list), ShellReply::Listed(vec![i32::MIN, i32::MAX]));
}

#[test]
fn help_echo_and_unknown_commands_answer_without_touching_the_list() {
    let mut list: LinkedList<i32> = LinkedList::new();
    shell(b"it 5\0", &mut list);
    assert_eq!(shell(b"help\0", &mut list), ShellReply::Help);
    assert_eq!(shell(b"echo hi\0", &mut list), ShellReply::Spawn);
    assert_eq!(shell(b"nonsense\0", &mut list), ShellReply::Unknown);
    assert_eq!(shell(b"\0", &mut list), ShellReply::Unknown);
    assert_eq!(shell(b"p\0", &mut list), ShellReply::Listed(vec![5]));
}
