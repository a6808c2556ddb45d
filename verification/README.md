# ring_buffer_rs

Circular buffers whose behaviour is proved with Verus.

- `src/model.rs`: the abstract bounded queue (a sequence, oldest first) that
  every buffer's contract is written against, and the laws proved of it
  (first in first out, bounded size, eviction keeps the latest items).
- `src/buffer.rs`: `RingBuffer`, the standard ring.
- `src/iter.rs`: `RingIter`, which walks a `RingBuffer` oldest first.
- `src/power2.rs`: `Power2Buffer`, indexed with a mask in place of `%`.
- `src/spsc.rs`: `Shared`, the ring of a single-producer single-consumer
  pair.
- `src/window.rs`: `SlidingWindow`, the most recent values of a stream.
- `app/lib.rs`: the mean of a window of `f64` values.
- `app/spsc.rs`: `spsc_new`, `Producer` and `Consumer`, two handles that reach
  one `Shared` ring through an `Rc<RefCell<..>>`; each call runs the verified
  `Shared` method.
