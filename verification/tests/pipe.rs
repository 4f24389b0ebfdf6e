use rand::rngs::SmallRng;
use rand::{Rng, SeedableRng};
use serde_pipe::buffer::{Deserializer, Serializer};
use serde_pipe::value::Value;
use std::collections::VecDeque;

#[test]
fn serializer() {
    let mut rng = SmallRng::from_seed([0, 1, 2, 3, 4, 5, 6, 7, 8, 9, 10, 11, 12, 13, 14, 15]);
    let iterations: usize = 5_000;
    for _ in 0..iterations {
        let mut serializer = Serializer::new();
        let mut queue: VecDeque<u8> = VecDeque::new();
        for _ in 0..rng.gen_range(0, 10_000) {
            if rng.gen() {
                match rng.gen_range(0, 6) {
                    0 => {
                        if serializer.push_avail() {
                            let y = bincode::serialize(&()).unwrap();
                            assert_eq!(y, vec![]);
                            for byte in bincode::serialize::<u64>(&1).unwrap() {
                                queue.push_back(byte);
                            }
                            queue.push_back(0);
                            assert!(serializer.push(Value::Unit));
                        }
                    }
                    1 => {
                        if serializer.push_avail() {
                            let x: u8 = rng.gen();
                            for byte in bincode::serialize::<u64>(&1).unwrap() {
                                queue.push_back(byte);
                            }
                            for byte in bincode::serialize(&x).unwrap() {
                                queue.push_back(byte);
                            }
                            assert!(serializer.push(Value::U8(x)));
                        }
                    }
                    2 => {
                        if serializer.push_avail() {
                            let x: u16 = rng.gen();
                            for byte in bincode::serialize::<u64>(&2).unwrap() {
                                queue.push_back(byte);
                            }
                            for byte in bincode::serialize(&x).unwrap() {
                                queue.push_back(byte);
                            }
                            assert!(serializer.push(Value::U16(x)));
                        }
                    }
                    3 => {
                        if serializer.push_avail() {
                            let x: u32 = rng.gen();
                            for byte in bincode::serialize::<u64>(&4).unwrap() {
                                queue.push_back(byte);
                            }
                            for byte in bincode::serialize(&x).unwrap() {
                                queue.push_back(byte);
                            }
                            assert!(serializer.push(Value::U32(x)));
                        }
                    }
                    4 => {
                        if serializer.push_avail() {
                            let x: u64 = rng.gen();
                            for byte in bincode::serialize::<u64>(&8).unwrap() {
                                queue.push_back(byte);
                            }
                            for byte in bincode::serialize(&x).unwrap() {
                                queue.push_back(byte);
                            }
                            assert!(serializer.push(Value::U64(x)));
                        }
                    }
                    5 => {
                        if serializer.push_avail() {
                            let x: String = rng.gen::<usize>().to_string();
                            for byte in bincode::serialize::<u64>(&((8 + x.len()) as u64)).unwrap()
                            {
                                queue.push_back(byte);
                            }
                            for byte in bincode::serialize(&x).unwrap() {
                                queue.push_back(byte);
                            }
                            assert!(serializer.push(Value::Text(x)));
                        }
                    }
                    _ => unreachable!(),
                }
            } else {
                if let Some(x) = serializer.pull() {
                    assert_eq!(queue.pop_front().unwrap(), x);
                }
            }
        }
        if serializer.empty_avail() {
            assert_ne!(queue.len(), 0);
            assert!(serializer.empty());
        } else {
            assert_eq!(queue, vec![]);
        }
    }
}

#[test]
fn deserializer() {
    let mut rng = SmallRng::from_seed([15, 14, 13, 12, 11, 10, 9, 8, 7, 6, 5, 4, 3, 2, 1, 0]);
    let iterations: usize = 5_000;
    for _ in 0..iterations {
        let mut deserializer = Deserializer::new();
        let mut queue: VecDeque<Value> = VecDeque::new();
        let mut pipe: VecDeque<u8> = VecDeque::new();
        for _ in 0..rng.gen_range(0, 10_000) {
            match rng.gen_range(0, 3) {
                0 => {
                    if pipe.len() < 100 {
                        match rng.gen_range(0, 6) {
                            0 => {
                                let y = bincode::serialize(&()).unwrap();
                                assert_eq!(y, vec![]);
                                for byte in bincode::serialize::<u64>(&1).unwrap() {
                                    pipe.push_back(byte);
                                }
                                pipe.push_back(0);
                                queue.push_back(Value::Unit);
                            }
                            1 => {
                                let x: u8 = rng.gen();
                                for byte in bincode::serialize::<u64>(&1).unwrap() {
                                    pipe.push_back(byte);
                                }
                                for byte in bincode::serialize(&x).unwrap() {
                                    pipe.push_back(byte);
                                }
                                queue.push_back(Value::U8(x));
                            }
                            2 => {
                                let x: u16 = rng.gen();
                                for byte in bincode::serialize::<u64>(&2).unwrap() {
                                    pipe.push_back(byte);
                                }
                                for byte in bincode::serialize(&x).unwrap() {
                                    pipe.push_back(byte);
                                }
                                queue.push_back(Value::U16(x));
                            }
                            3 => {
                                let x: u32 = rng.gen();
                                for byte in bincode::serialize::<u64>(&4).unwrap() {
                                    pipe.push_back(byte);
                                }
                                for byte in bincode::serialize(&x).unwrap() {
                                    pipe.push_back(byte);
                                }
                                queue.push_back(Value::U32(x));
                            }
                            4 => {
                                let x: u64 = rng.gen();
                                for byte in bincode::serialize::<u64>(&8).unwrap() {
                                    pipe.push_back(byte);
                                }
                                for byte in bincode::serialize(&x).unwrap() {
                                    pipe.push_back(byte);
                                }
                                queue.push_back(Value::U64(x));
                            }
                            5 => {
                                let x: String = rng.gen::<usize>().to_string();
                                for byte in
                                    bincode::serialize::<u64>(&((8 + x.len()) as u64)).unwrap()
                                {
                                    pipe.push_back(byte);
                                }
                                for byte in bincode::serialize(&x).unwrap() {
                                    pipe.push_back(byte);
                                }
                                queue.push_back(Value::Text(x.clone()));
                            }
                            _ => unreachable!(),
                        }
                    }
                }
                1 => {
                    if !pipe.is_empty() && deserializer.push_avail() {
                        assert!(deserializer.push(pipe.pop_front().unwrap()));
                    }
                }
                2 => {
                    if let Some(front) = queue.front() {
                        let kind = front.kind();
                        if let Some(x) = deserializer.pull(kind) {
                            assert_eq!(&x, front);
                            let _ = queue.pop_front().unwrap();
                        }
                    }
                }
                _ => unreachable!(),
            }
        }
        if deserializer.empty_avail() {
            assert!(deserializer.empty());
        }
    }
}

#[test]
fn both() {
    let mut rng = SmallRng::from_seed([0, 1, 2, 3, 4, 5, 6, 7, 7, 6, 5, 4, 3, 2, 1, 0]);
    let iterations: usize = 5_000;
    for _ in 0..iterations {
        let mut serializer = Serializer::new();
        let mut deserializer = Deserializer::new();
        let mut queue: VecDeque<Value> = VecDeque::new();
        for _ in 0..rng.gen_range(0, 10_000) {
            match rng.gen_range(0, 3) {
                0 => match rng.gen_range(0, 6) {
                    0 => {
                        if serializer.push_avail() {
                            let y = bincode::serialize(&()).unwrap();
                            assert_eq!(y, vec![]);
                            queue.push_back(Value::Unit);
                            assert!(serializer.push(Value::Unit));
                        }
                    }
                    1 => {
                        if serializer.push_avail() {
                            let x: u8 = rng.gen();
                            queue.push_back(Value::U8(x));
                            assert!(serializer.push(Value::U8(x)));
                        }
                    }
                    2 => {
                        if serializer.push_avail() {
                            let x: u16 = rng.gen();
                            queue.push_back(Value::U16(x));
                            assert!(serializer.push(Value::U16(x)));
                        }
                    }
                    3 => {
                        if serializer.push_avail() {
                            let x: u32 = rng.gen();
                            queue.push_back(Value::U32(x));
                            assert!(serializer.push(Value::U32(x)));
                        }
                    }
                    4 => {
                        if serializer.push_avail() {
                            let x: u64 = rng.gen();
                            queue.push_back(Value::U64(x));
                            assert!(serializer.push(Value::U64(x)));
                        }
                    }
                    5 => {
                        if serializer.push_avail() {
                            let x: String = rng.gen::<usize>().to_string();
                            queue.push_back(Value::Text(x.clone()));
                            assert!(serializer.push(Value::Text(x)));
                        }
                    }
                    _ => unreachable!(),
                },
                1 => {
                    if serializer.pull_avail() && deserializer.push_avail() {
                        let byte = serializer.pull().unwrap();
                        assert!(deserializer.push(byte));
                    }
                }
                2 => {
                    if let Some(front) = queue.front() {
                        let kind = front.kind();
                        if let Some(x) = deserializer.pull(kind) {
                            assert_eq!(&x, front);
                            let _ = queue.pop_front().unwrap();
                        }
                    }
                }
                _ => unreachable!(),
            }
        }
        if serializer.empty_avail() {
            assert!(serializer.empty());
        }
        if deserializer.empty_avail() {
            assert!(deserializer.empty());
        }
    }
}
