# dart_piper_tts

Text-to-speech with Piper voices for Dart and Flutter. Text is turned into
IPA phonemes (with the CMU dictionary for English, Epitran for other
languages, or a ByT5 grapheme-to-phoneme model), the phonemes are cut into
chunks, each chunk is synthesized by the voice's ONNX model, and the samples
are played through the audio device.

Layout:

- `src/` — the verified library (Verus): text utilities (`text`), the ByT5
  tokenizer and greedy generation (`tokenizer`), tokenizing text and the
  phonemization strategies as a state machine that asks its caller for model
  and Epitran results (`phonemizer::phonemizer`), the CMU dictionary
  phonemizer (`phonemizer::cmudict`), Epitran language tags
  (`phonemizer::epitran`), sentence chunking for the model
  (`phonemizer::neural`, `phonemizer::chunks`), phoneme chunking and worker
  decisions (`instance`), playback decisions and settings (`audio`), the
  voice language tag (`config`) and the error type (`error`).
- `app/` — the C interface, the audio device and ring buffer, the ONNX
  sessions (voice and ByT5 model), the Epitran transliterator, worker threads
  and logging. It drives the library's phonemizer, answering its requests.
- `tests/` — tests of the library on concrete values.
