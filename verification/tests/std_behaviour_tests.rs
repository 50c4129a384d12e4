use minigrep::mysql::mycnf;
use minigrep::text;

#[derive(Debug)]
struct AStruct {
    name: String,
    lines: Vec<String>,
}

fn print_stars<T: AsRef<str>>(v: T) {
    println!("xxxxxxxxxxxxxx{}xxxxxxxxxxxx", v.as_ref());
}

fn get_ass<T: AsRef<str>>(name: T) -> AStruct {
    AStruct { name: String::from(name.as_ref()), lines: vec![String::from("hello")] }
}

fn parse_hex(hex_asm: &str) -> Vec<u8> {
    let mut hex_bytes = hex_asm
        .as_bytes()
        .iter()
        .filter_map(|b| match b {
            b'0'..=b'9' => Some(b - b'0'),
            b'a'..=b'f' => Some(b - b'a' + 10),
            b'A'..=b'F' => Some(b - b'A' + 10),
            _ => None,
        })
        .fuse();
    let mut bytes = Vec::new();
    while let (Some(h), Some(l)) = (hex_bytes.next(), hex_bytes.next()) {
        bytes.push(h << 4 | l)
    }
    bytes
}

#[test]
fn test_index() {
    let ms = "abc";
    let chars: Vec<char> = ms.chars().collect();
    assert_eq!('a', chars[0]);

    let ms = "しばらく";
    let chars: Vec<char> = ms.chars().collect();
    assert_eq!('し', chars[0]);

    let ms = " [mysqld] ";
    let ms = ms.trim();

    let mut v: Vec<_> = ms.match_indices(|c| c == '[' || c == ']').collect();
    assert_eq!(v, [(0, "["), (7, "]")]);
    let start = v.remove(0);
    assert_eq!(start, (0, "["));
    let end = v.pop();
    assert_eq!(end, Some((7, "]")));
    assert_eq!(end.unwrap().0, 7);

    let t = (0, 1, 2);
    assert_eq!(t.2, 2);
    let bn = &ms[1..end.unwrap().0];
    assert_eq!(bn, "mysqld");
    assert_eq!(mycnf::header_name_of(&text::trim_str(" [mysqld] ")), Some(bn.to_string()));
}

#[test]
fn test_match() {
    let s = (0, "a");
    let s1 = "a";
    match s.1 {
        _ if s.1 == s1 => print_stars(s1),
        _ => print_stars("not matches."),
    }
}

#[test]
fn test_compare() {
    let s = "abc";
    let ss = String::from("abc");
    assert!(s == ss);
    assert_eq!(s, ss);
    assert!(text::eq_str(s, &ss));

    let a_struct = AStruct { name: String::from("abc"), lines: vec!["hello".to_owned()] };
    let mut as1: Vec<Option<&AStruct>> = Vec::new();
    assert!(as1.len() == 0);
    for i in &[1, 2, 3] {
        println!("{}", i);
        as1.push(Some(&a_struct));
        println!("{:#?}", as1);
        assert!(as1.len() == *i);
    }
    let mut _v_br = "a";
    _v_br = "b";
    assert_eq!(_v_br, "b");

    let one_as = a_struct;
    println!("{:?}", one_as);
    let mut as_br: Option<AStruct> = Some(get_ass("aaa"));
    assert_eq!(as_br.as_ref().unwrap().name, "aaa");
    as_br = Some(get_ass("bbb"));
    let b = as_br.unwrap();
    assert_eq!(b.lines, vec!["hello".to_string()]);
    println!("------------{:?}-------------", b);
}

#[test]
fn test_bor() {
    let mut i_br: &i32 = &5;
    assert_eq!(*i_br, 5);
    i_br = &10;
    assert_eq!(*i_br, 10);

    let v = [1, 2, 3];
    let v1 = v;
    assert_eq!(v1, [1, 2, 3]);
    let v2 = &v;
    assert_eq!(v1, *v2);
    assert_eq!(&v1, v2);

    let v3 = &mut [1, 2, 3];
    for i in v3.iter_mut() {
        *i = 2;
    }
    let l = v3.len();
    println!("{:?}", l);
    v3[0] = 55;
    assert_eq!(*v3, [55, 2, 2]);
}

#[test]
fn test_scope() {
    let mut long_lived_binding = 1;
    {
        let short_lived_binding = 2;
        println!("inner short: {}", short_lived_binding);
        long_lived_binding = 5;
        println!("inner long: {}", long_lived_binding);
    }
    println!("outer long: {}", long_lived_binding);
    let long_lived_binding = 'a';
    println!("outer long: {}", long_lived_binding);
}

#[test]
fn test_bool() {
    let y = true;
    assert!(y);
    match y {
        true => (),
        false => (),
    }
}

#[test]
fn test_split_str() {
    let t = [1, 2];
    let [a, b] = [1, 2];
    assert!(a == 1);
    assert!(b == 2);
    let (a, b) = (1, 2);
    assert!(a == 1);
    assert!(b == 2);
    assert!(t.len() == 2);
    match t {
        [a, b] => println!("{}{}", a, b),
    };
}

#[test]
fn test_string_test_split_str1() {
    assert_eq!(0b0000_0001 << 4, 16);
    assert_eq!(b'0', 48);
    let u8s = parse_hex("10");
    assert_eq!(u8s.get(0).unwrap(), &16);
}

#[test]
fn test_vec_test_split_str1() {
    assert_eq!(0b0000_0001 << 4, 16);
    assert_eq!(b'0', 48);
    let u8s = parse_hex("10");
    assert_eq!(u8s.get(0).unwrap(), &16);
    let s = r"\xce\xde\xb7\xa8\xb4\xf2\xbf\xaa\xce\xc4\xbc\xfe\xa1\xb0";
    let prev_u8: Vec<u8> = vec![0; 2];
    s.as_bytes().iter().for_each(|_it| if prev_u8 == [b'\\', b'x'] {});
    assert_eq!(parse_hex(s).len(), 14);
}

#[test]
fn test_push_vec() {
    let vec1: Vec<u8> = Vec::with_capacity(5);
    assert_eq!(vec1.len(), 0);
    assert_eq!(vec1.capacity(), 5);

    let mut prev_u8: Vec<u8> = vec![0; 2];
    assert_eq!(prev_u8, [0, 0]);
    prev_u8.push(3);
    prev_u8.push(3);
    assert_eq!(prev_u8, [0, 0, 3, 3]);
}

fn return_ref<'a>() -> &'a str {
    "abc"
}

fn return_a_vec<'a>() -> Vec<&'a str> {
    vec!["a", "b"]
}

fn return_a_vec1() -> Vec<String> {
    vec![String::from("a")]
}

#[test]
fn test_1() {
    assert_eq!(return_ref(), "abc");
    assert_eq!(return_a_vec(), ["a", "b"]);
    assert_eq!(return_a_vec1()[0], "a".to_owned());
}

#[test]
fn test_batching() {
    assert_eq!(0, 0);
}

type ScanResult = Result<(u8, u8), ()>;

fn get_pair(a_slice: &[u8]) -> Vec<ScanResult> {
    a_slice
        .iter()
        .scan((None, None), |state: &mut (Option<u8>, Option<u8>), &it| match state {
            (None, None) => {
                state.0 = Some(it);
                Some(Err(()))
            }
            // only a backslash opens an escape: a `\\x` is the start of a pair
            (Some(b'\\'), None) => {
                state.1 = Some(it);
                Some(Err(()))
            }
            (Some(b'\\'), Some(b'x')) => {
                state.0 = Some(it);
                Some(Err(()))
            }
            (Some(b'0'..=b'9'), Some(b'x'))
            | (Some(b'a'..=b'f'), Some(b'x'))
            | (Some(b'A'..=b'F'), Some(b'x')) => match it {
                b'0'..=b'9' | b'a'..=b'f' | b'A'..=b'F' => {
                    let tp = (state.0.unwrap(), it);
                    *state = (None, None);
                    Some(Ok(tp))
                }
                _ => {
                    *state = (None, None);
                    Some(Err(()))
                }
            },
            _ => {
                *state = (Some(it), None);
                Some(Err(()))
            }
        })
        .filter(Result::is_ok)
        .collect()
}

#[test]
fn test_scan() {
    let vi: Vec<usize> = [1, 2, 3]
        .iter()
        .scan(1, |_, &it| if it != 2 { Some(it) } else { None })
        .collect();
    assert_eq!(vi.len(), 1);

    let s = r"\xce\xde";
    assert_eq!(get_pair(s.as_bytes()).len(), 2);
    let s = r"ce\xce\xde";
    assert_eq!(get_pair(s.as_bytes()).len(), 2);
    let s = r"ce\xce\xde1234";
    assert_eq!(get_pair(s.as_bytes()).len(), 2);
    let s = r"cxe\xce\xde";
    assert_eq!(get_pair(s.as_bytes()).len(), 2);
}

#[test]
fn test_first() {
    let s = r"\xce\xde\xb7\xa8\xb4\xf2\xbf\xaa\xce\xc4\xbc\xfe\xa1\xb0";
    let v_slice: &[u8] = s.as_bytes();
    let mut first_item = None;
    if let Some((first, _)) = v_slice.split_first() {
        first_item = Some(first);
    }
    assert_eq!(first_item, Some(&b'\\'));
    let mut bytes_it = v_slice.iter().peekable();
    let bytes_it_clone = bytes_it.clone();
    let pair_it = bytes_it_clone
        .map(|&asc| match asc {
            b'\\' => {
                if let Some(&&c) = bytes_it.peek() {
                    if c == b'x' {
                        bytes_it.next();
                    }
                    None
                } else {
                    None
                }
            }
            b'0'..=b'9' | b'a'..=b'f' | b'A'..=b'F' => {
                if let Some(&&c) = bytes_it.peek() {
                    match c {
                        b'0'..=b'9' | b'a'..=b'f' | b'A'..=b'F' => {
                            bytes_it.next();
                            println!("..........{}..{}............", &asc, &c);
                            Some((asc, c))
                        }
                        _ => None,
                    }
                } else {
                    None
                }
            }
            _ => None,
        })
        .filter_map(|it| it)
        .collect::<Vec<(u8, u8)>>();
    println!("{:?}", pair_it);
    assert_eq!(pair_it.len(), 0);
}

#[test]
fn t_array() {
    let mut array: [i32; 3] = [0; 3];
    array[1] = 1;
    array[2] = 2;
    assert_eq!([1, 2], &array[1..]);
    for x in &array {
        println!("{} ", x);
    }
}
