# paimon

Verified session helpers for Paimon tables, written in Verus.

- `src/` is the library. Every function carries a contract that Verus proves;
  the functions named `law_...` state what holds of several of them together.
  Nothing in it does I/O. One call is trusted rather than proved: the JSON parse
  of catalog options in `vindex_build`.
  - `consumer_manager`, `consumer_list`: the progress of consumers. A file that
    does not parse may be in the middle of being overwritten and is read again,
    up to ten times.
  - `blob_reader`, `blob_descriptor`, `blob_stream`: blobs as seekable streams,
    served by the handle registered for the longest prefix of their URI.
  - `video_snapshot`, `vindex_build`: the built-in SQL function and the
    arguments of the index build.
  - `text`, `byte_order`: prefixes, path components, order and numbers of text.
- `app/` holds what surrounds it: storage through OpenDAL, the Python classes
  and the benchmark command. The query engine itself comes in through the traits
  of `app/engine.rs` and `app/benchmark.rs`.
- `tests/` runs the library on concrete values.
