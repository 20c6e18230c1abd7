# burn-speech-training

Training of a speech aligner and pronunciation scorer: grapheme-to-phoneme
conversion, batching of utterances, training and fine-tuning runs, evaluation
against human scores, and the reports that come out of them.

- `src/` is the library. Everything in it is verified with Verus: each function
  states in its contract what it returns, and functions named `law_..` state what
  holds of several of them together.
- `app/` is the part around it that reads and writes files, decodes audio, and
  runs the neural network on its backend. Floating-point arithmetic is there too;
  the library carries floating-point values by their bits and compares them
  (`src/ieee.rs`).
- `tests/` runs the library on concrete values.

| Module | What it holds |
| --- | --- |
| `g2p`, `phoneme_map`, `spelling` | ARPABET and IPA, the CMU dictionary, words to phoneme classes, and what of a spelling does not matter |
| `mfcc`, `model`, `attention`, `conv_block`, `se_block` | shapes: feature modes, frames, layers, word spans |
| `dataset`, `precompute` | transcripts, padded and attention-aware batches, the feature cache |
| `train` | a training run as a state machine, resumption, metric lines, reports |
| `finetune` | fine-tuning on scored words: arguments, targets, preparation, mixup, teacher features, the run |
| `evaluate` | CTC best path, goodness of pronunciation, ranks, resampling, reports |
| `order`, `grouping`, `text`, `markdown`, `ieee`, `clock`, `ui`, `error` | what the others share |

What the library takes on trust from outside stands behind functions marked
`external_body` or `assume_specification`; the comment above each names the
outside function and says what is claimed of it.
