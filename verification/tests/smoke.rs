use nrrd_rs::io::{read_gzip, write_gzip, ByteStream};

#[test]
fn test() {
    println!("gzip test");
    let payload: Vec<u8> = vec![1, 2, 3, 4, 5, 6, 7, 8];
    let mut file: Vec<u8> = Vec::new();
    write_gzip(&mut file, &payload).unwrap();
    assert_ne!(file, payload);
    let mut stream = ByteStream::new(file);
    let mut back = vec![0u8; 8];
    assert_eq!(read_gzip(&mut stream, None, &mut back, 0), Ok(8));
    assert_eq!(back, payload);
}
