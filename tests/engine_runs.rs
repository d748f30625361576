use std::future::Future;
use std::pin::Pin;
use std::sync::{Arc, Mutex};

use chunk_bridge::assemble::{begin_self_encrypt, store_data_map, AssembleError, ChunkRef, DataMap};
use chunk_bridge::bridge::{
    get_byte_for_chunk, get_chunks_count, get_chunks_size, get_datamap_byte, get_datamap_size,
    get_exit_code, set_input_byte, Bridge,
};
use chunk_bridge::store::RamBasedStorage;
use self_encryption::{SelfEncryptionError, SelfEncryptor, Storage};

#[derive(Clone)]
struct Shared(Arc<Mutex<RamBasedStorage>>);

type Reply<'a, T> = Pin<Box<dyn Future<Output = Result<T, SelfEncryptionError>> + Send + 'a>>;

fn io_error() -> SelfEncryptionError {
    SelfEncryptionError::Generic("IO Error".to_string())
}

impl Storage for Shared {
    fn get<'life0, 'life1, 'async_trait>(&'life0 mut self, name: &'life1 [u8]) -> Reply<'async_trait, Vec<u8>>
    where
        'life0: 'async_trait,
        'life1: 'async_trait,
        Self: 'async_trait,
    {
        let r = self.0.lock().unwrap().get(name).map_err(|_| io_error());
        Box::pin(async move { r })
    }

    fn put<'life0, 'async_trait>(&'life0 mut self, name: Vec<u8>, data: Vec<u8>) -> Reply<'async_trait, ()>
    where
        'life0: 'async_trait,
        Self: 'async_trait,
    {
        let r = self.0.lock().unwrap().put(name, data).map_err(|_| io_error());
        Box::pin(async move { r })
    }

    fn delete<'life0, 'life1, 'async_trait>(&'life0 mut self, name: &'life1 [u8]) -> Reply<'async_trait, ()>
    where
        'life0: 'async_trait,
        'life1: 'async_trait,
        Self: 'async_trait,
    {
        let r = self.0.lock().unwrap().delete(name).map_err(|_| io_error());
        Box::pin(async move { r })
    }

    fn generate_address<'life0, 'life1, 'async_trait>(&'life0 self, data: &'life1 [u8]) -> Reply<'async_trait, Vec<u8>>
    where
        'life0: 'async_trait,
        'life1: 'async_trait,
        Self: 'async_trait,
    {
        let r = self.0.lock().unwrap().generate_address(data);
        Box::pin(async move { Ok(r) })
    }
}

fn convert(dm: self_encryption::DataMap) -> DataMap {
    match dm {
        self_encryption::DataMap::Chunks(cs) => DataMap::Chunks(
            cs.into_iter().map(|c| ChunkRef { chunk_num: c.chunk_num, hash: c.hash }).collect(),
        ),
        self_encryption::DataMap::Content(c) => DataMap::Content(c),
        self_encryption::DataMap::None => DataMap::Empty,
    }
}

/// Runs one call over the first `len` input bytes; returns the engine's own chunks.
fn run(b: &mut Bridge, len: usize) -> (Result<(), AssembleError>, Vec<Vec<u8>>, usize) {
    let input = begin_self_encrypt(b, len).unwrap();
    let store = Shared(Arc::new(Mutex::new(RamBasedStorage::new())));
    let se = SelfEncryptor::new(store.clone(), self_encryption::DataMap::None).unwrap();
    futures::executor::block_on(se.write(&input, 0)).unwrap();
    let (dm, store) = futures::executor::block_on(se.close()).unwrap();
    let engine_chunks: Vec<Vec<u8>> = match &dm {
        self_encryption::DataMap::Chunks(cs) => {
            cs.iter().map(|c| store.0.lock().unwrap().get(&c.hash).unwrap()).collect()
        }
        _ => vec![],
    };
    let variant = match &dm {
        self_encryption::DataMap::Chunks(_) => 0,
        self_encryption::DataMap::Content(_) => 1,
        self_encryption::DataMap::None => 2,
    };
    let guard = store.0.lock().unwrap();
    (store_data_map(b, &guard, &convert(dm)), engine_chunks, variant)
}

fn fill_input(b: &mut Bridge, len: usize) -> Vec<u8> {
    let bytes: Vec<u8> = (0..len).map(|i| (i * 7 % 251) as u8).collect();
    for (i, v) in bytes.iter().enumerate() {
        set_input_byte(b, i, *v);
    }
    bytes
}

#[test]
fn empty_input_gives_an_empty_data_map() {
    let mut b = Bridge::new();
    let (r, _, variant) = run(&mut b, 0);
    assert_eq!(r, Ok(()));
    assert_eq!(variant, 2);
    assert_eq!(get_exit_code(&b), 0);
    assert_eq!(get_chunks_count(&b), 0);
    assert_eq!(get_datamap_size(&b), 0);
}

#[test]
fn small_input_is_kept_inline() {
    let mut b = Bridge::new();
    let bytes = fill_input(&mut b, 100);
    let (r, _, variant) = run(&mut b, 100);
    assert_eq!(r, Ok(()));
    assert_eq!(variant, 1);
    assert_eq!(get_chunks_count(&b), 0);
    assert_eq!(get_datamap_size(&b), 100);
    for i in 0..100 {
        assert_eq!(get_datamap_byte(&b, i), bytes[i]);
    }
}

#[test]
fn larger_input_is_split_into_three_chunks() {
    let mut b = Bridge::new();
    fill_input(&mut b, 4000);
    let (r, engine_chunks, variant) = run(&mut b, 4000);
    assert_eq!(r, Ok(()));
    assert_eq!(variant, 0);
    assert_eq!(get_exit_code(&b), 0);
    assert_eq!(get_chunks_count(&b), 3);
    assert_eq!(get_datamap_size(&b), 96);
    assert_eq!(engine_chunks.len(), 3);
    for c in 0..3 {
        let size = get_chunks_size(&b, c);
        assert_eq!(size, engine_chunks[c].len());
        let read: Vec<u8> = (0..size).map(|j| get_byte_for_chunk(&b, c, j)).collect();
        assert_eq!(read, engine_chunks[c]);
    }
    assert_ne!(engine_chunks[0], engine_chunks[1]);
    assert_ne!(engine_chunks[1], engine_chunks[2]);
}

#[test]
fn a_second_call_starts_from_a_fresh_store() {
    let mut b = Bridge::new();
    fill_input(&mut b, 4000);
    let (first, _, _) = run(&mut b, 4000);
    let (second, chunks, _) = run(&mut b, 4000);
    assert_eq!(first, Ok(()));
    assert_eq!(second, Ok(()));
    assert_eq!(get_chunks_count(&b), 3);
    assert_eq!(get_chunks_size(&b, 0), chunks[0].len());
}
